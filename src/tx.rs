//! Legacy Bitcoin transactions: sizes, signature scripts and placeholder signing.

use vstd::prelude::*;

use crate::bytes::extend_bytes;
use crate::types::OutPoint;
use bitcoin::absolute::LockTime;
use bitcoin::transaction::Version;
use bitcoin::{Amount, ScriptBuf, Sequence, Txid, Witness};
use bitcoin::{OutPoint as BtcOutPoint, Transaction as BtcTransaction, TxIn as BtcTxIn, TxOut as BtcTxOut};

verus! {

/// Sequence number that disables relative lock-time and replace-by-fee.
pub const SEQUENCE_MAX: u32 = 0xffff_ffff;

/// Sequence number that signals replace-by-fee without a lock-time.
pub const SEQUENCE_RBF: u32 = 0xffff_fffd;

/// Signature hash type committing to all inputs and outputs.
pub const SIGHASH_ALL: u8 = 1;

/// A transaction input of a legacy (non-witness) transaction.
pub struct TxIn {
    pub previous_output: OutPoint,
    pub script_sig: Vec<u8>,
    pub sequence: u32,
}

/// A transaction output.
pub struct TxOut {
    pub value: u64,
    pub script_pubkey: Vec<u8>,
}

/// A legacy Bitcoin transaction: no input carries witness data.
pub struct Transaction {
    pub version: i32,
    pub lock_time: u32,
    pub input: Vec<TxIn>,
    pub output: Vec<TxOut>,
}

/// Length of the compact-size prefix that encodes `n`.
pub open spec fn varint_size(n: int) -> int {
    if n <= 0xfc {
        1
    } else if n <= 0xffff {
        3
    } else if n <= 0xffff_ffff {
        5
    } else {
        9
    }
}

pub open spec fn input_size(i: TxIn) -> int {
    36 + varint_size(i.script_sig@.len() as int) + i.script_sig@.len() + 4
}

pub open spec fn output_size(o: TxOut) -> int {
    8 + varint_size(o.script_pubkey@.len() as int) + o.script_pubkey@.len()
}

pub open spec fn inputs_size(s: Seq<TxIn>) -> int
    decreases s.len(),
{
    if s.len() == 0 {
        0
    } else {
        inputs_size(s.drop_last()) + input_size(s.last())
    }
}

pub open spec fn outputs_size(s: Seq<TxOut>) -> int
    decreases s.len(),
{
    if s.len() == 0 {
        0
    } else {
        outputs_size(s.drop_last()) + output_size(s.last())
    }
}

/// Serialised size of a transaction without witness data.
pub open spec fn base_size(t: Transaction) -> int {
    4 + varint_size(t.input@.len() as int) + inputs_size(t.input@) + varint_size(
        t.output@.len() as int,
    ) + outputs_size(t.output@) + 4
}

/// Relies on bitcoin::Transaction::vsize: the weight is three times the base
/// size plus the total size; with at least one input and no witness the two
/// sizes are equal, so the virtual size is the base size.
#[verifier::external_body]
fn legacy_vsize(tx: &Transaction) -> (r: usize)
    requires
        tx.input@.len() > 0,
    ensures
        r == base_size(*tx),
{
    let t = BtcTransaction {
        version: Version(tx.version),
        lock_time: LockTime::from_consensus(tx.lock_time),
        input: tx.input.iter().map(|i| BtcTxIn {
            previous_output: BtcOutPoint::new(<Txid as bitcoin::hashes::Hash>::from_byte_array(i.previous_output.txid), i.previous_output.vout),
            script_sig: ScriptBuf::from_bytes(i.script_sig.clone()),
            sequence: Sequence(i.sequence),
            witness: Witness::new(),
        }).collect(),
        output: tx.output.iter().map(|o| BtcTxOut { value: Amount::from_sat(o.value), script_pubkey: ScriptBuf::from_bytes(o.script_pubkey.clone()) }).collect(),
    };
    t.vsize()
}

/// Virtual size of `tx`.
pub fn vsize(tx: &Transaction) -> (r: usize)
    requires
        tx.input@.len() > 0,
    ensures
        r == base_size(*tx),
{
    legacy_vsize(tx)
}

/// Script that pushes `d` onto the stack.
pub open spec fn push_data(d: Seq<u8>) -> Seq<u8> {
    if d.len() < 0x4c {
        seq![d.len() as u8] + d
    } else if d.len() < 0x100 {
        seq![0x4cu8, d.len() as u8] + d
    } else {
        seq![0x4du8, (d.len() % 0x100) as u8, (d.len() / 0x100) as u8] + d
    }
}

/// Appends to `script` the push of `data`.
pub fn push_slice(script: &mut Vec<u8>, data: &Vec<u8>)
    requires
        data@.len() < 0x10000,
    ensures
        final(script)@ == old(script)@ + push_data(data@),
{
    let n = data.len();
    let ghost start = script@;
    if n < 0x4c {
        script.push(n as u8);
    } else if n < 0x100 {
        script.push(0x4c);
        script.push(n as u8);
    } else {
        script.push(0x4d);
        script.push((n % 0x100) as u8);
        script.push((n / 0x100) as u8);
    }
    let ghost mid = script@;
    extend_bytes(script, data);
    proof {
        if n < 0x4c {
            assert(mid =~= start + seq![n as u8]);
        } else if n < 0x100 {
            assert(mid =~= start + seq![0x4cu8, n as u8]);
        } else {
            assert(mid =~= start + seq![0x4du8, (n % 0x100) as u8, (n / 0x100) as u8]);
        }
        assert(script@ =~= start + push_data(data@));
    }
}

/// One half of a signature as a DER integer body: a zero byte is prefixed
/// when the high bit is set, so that the integer reads as positive.
pub open spec fn der_int(x: Seq<u8>) -> Seq<u8> {
    if x[0] >= 0x80 {
        seq![0u8] + x
    } else {
        x
    }
}

/// DER encoding of a 64-byte `r || s` signature.
pub open spec fn der_of(sig: Seq<u8>) -> Seq<u8> {
    let r = der_int(sig.subrange(0, 32));
    let s = der_int(sig.subrange(32, 64));
    seq![0x30u8, (4 + r.len() + s.len()) as u8, 0x02u8, r.len() as u8] + r + seq![
        0x02u8,
        s.len() as u8,
    ] + s
}

fn der_int_of(sig: &Vec<u8>, start: usize) -> (r: Vec<u8>)
    requires
        sig@.len() == 64,
        start == 0 || start == 32,
    ensures
        r@ == der_int(sig@.subrange(start as int, start + 32)),
{
    let mut out: Vec<u8> = Vec::new();
    if sig[start] >= 0x80 {
        out.push(0);
    }
    let ghost prefix = out@;
    let mut i: usize = start;
    while i < start + 32
        invariant
            sig@.len() == 64,
            start <= i <= start + 32,
            start + 32 <= 64,
            out@ == prefix + sig@.subrange(start as int, i as int),
        decreases start + 32 - i,
    {
        out.push(sig[i]);
        i = i + 1;
        proof {
            assert(out@ =~= prefix + sig@.subrange(start as int, i as int));
        }
    }
    proof {
        assert(sig@.subrange(start as int, start + 32)[0] == sig@[start as int]);
        if sig@[start as int] >= 0x80 {
            assert(prefix =~= seq![0u8]);
        } else {
            assert(prefix =~= Seq::<u8>::empty());
            assert(out@ =~= sig@.subrange(start as int, start + 32));
        }
    }
    out
}

/// DER encoding of a 64-byte `r || s` signature, as Bitcoin scripts carry it.
pub fn sec1_to_der(sig: &Vec<u8>) -> (r: Vec<u8>)
    requires
        sig@.len() == 64,
    ensures
        r@ == der_of(sig@),
        r@.len() <= 72,
{
    let rr = der_int_of(sig, 0);
    let ss = der_int_of(sig, 32);
    let mut out: Vec<u8> = Vec::new();
    out.push(0x30);
    out.push((4 + rr.len() + ss.len()) as u8);
    out.push(0x02);
    out.push(rr.len() as u8);
    extend_bytes(&mut out, &rr);
    out.push(0x02);
    out.push(ss.len() as u8);
    extend_bytes(&mut out, &ss);
    proof {
        assert(out@ =~= der_of(sig@));
    }
    out
}

/// The signature script of a P2PKH input: the signature with its hash-type
/// byte, then the public key.
pub open spec fn p2pkh_script_sig(sig: Seq<u8>, pubkey: Seq<u8>) -> Seq<u8> {
    push_data(der_of(sig).push(SIGHASH_ALL)) + push_data(pubkey)
}

/// Builds the signature script of a P2PKH input from a 64-byte signature and
/// a public key.
pub fn script_sig_for(sig: &Vec<u8>, pubkey: &Vec<u8>) -> (r: Vec<u8>)
    requires
        sig@.len() == 64,
        pubkey@.len() < 0x10000,
    ensures
        r@ == p2pkh_script_sig(sig@, pubkey@),
{
    let mut der = sec1_to_der(sig);
    der.push(SIGHASH_ALL);
    let mut script: Vec<u8> = Vec::new();
    push_slice(&mut script, &der);
    push_slice(&mut script, pubkey);
    proof {
        assert(script@ =~= p2pkh_script_sig(sig@, pubkey@));
    }
    script
}

/// The placeholder signature used to size a transaction before signing.
pub open spec fn dummy_signature() -> Seq<u8> {
    Seq::new(64, |i: int| 0xffu8)
}

pub open spec fn mock_input_ok(i: TxIn, orig: TxIn, pubkey: Seq<u8>) -> bool {
    &&& i.previous_output == orig.previous_output
    &&& i.script_sig@ == p2pkh_script_sig(dummy_signature(), pubkey)
    &&& i.sequence == SEQUENCE_RBF
}

pub open spec fn same_outputs(a: Seq<TxOut>, b: Seq<TxOut>) -> bool {
    a.len() == b.len() && forall|k: int|
        0 <= k < a.len() ==> (#[trigger] a[k]).value == b[k].value && a[k].script_pubkey@
            == b[k].script_pubkey@
}

/// `m` is `t` with each input's signature script replaced by a placeholder
/// signature by `pubkey` and its sequence set to signal replace-by-fee.
pub open spec fn is_mock_of(m: Transaction, t: Transaction, pubkey: Seq<u8>) -> bool {
    &&& m.version == t.version
    &&& m.lock_time == t.lock_time
    &&& m.input@.len() == t.input@.len()
    &&& forall|k: int| 0 <= k < m.input@.len() ==> mock_input_ok(#[trigger] m.input@[k], t.input@[k], pubkey)
    &&& same_outputs(m.output@, t.output@)
}

/// Copies a list of outputs.
pub fn copy_outputs(o: &Vec<TxOut>) -> (r: Vec<TxOut>)
    ensures
        same_outputs(r@, o@),
{
    let mut out: Vec<TxOut> = Vec::new();
    let mut i: usize = 0;
    while i < o.len()
        invariant
            i <= o@.len(),
            out@.len() == i,
            forall|k: int|
                0 <= k < i ==> (#[trigger] out@[k]).value == o@[k].value && out@[k].script_pubkey@
                    == o@[k].script_pubkey@,
        decreases o@.len() - i,
    {
        out.push(TxOut { value: o[i].value, script_pubkey: o[i].script_pubkey.clone() });
        i = i + 1;
    }
    out
}

/// `txn` with every input signed by a placeholder signature under `pubkey`,
/// so that its size equals that of the signed transaction.
pub fn mock_signature(txn: &Transaction, pubkey: &Vec<u8>) -> (r: Transaction)
    requires
        pubkey@.len() < 0x10000,
    ensures
        is_mock_of(r, *txn, pubkey@),
{
    let mut dummy: Vec<u8> = Vec::new();
    let mut j: usize = 0;
    while j < 64
        invariant
            j <= 64,
            dummy@ == Seq::new(j as nat, |i: int| 0xffu8),
        decreases 64 - j,
    {
        dummy.push(0xff);
        j = j + 1;
        proof {
            assert(dummy@ =~= Seq::new(j as nat, |i: int| 0xffu8));
        }
    }
    let script = script_sig_for(&dummy, pubkey);
    let mut input: Vec<TxIn> = Vec::new();
    let mut i: usize = 0;
    while i < txn.input.len()
        invariant
            i <= txn.input@.len(),
            input@.len() == i,
            script@ == p2pkh_script_sig(dummy_signature(), pubkey@),
            forall|k: int| 0 <= k < i ==> mock_input_ok(#[trigger] input@[k], txn.input@[k], pubkey@),
        decreases txn.input@.len() - i,
    {
        input.push(
            TxIn {
                previous_output: txn.input[i].previous_output,
                script_sig: script.clone(),
                sequence: SEQUENCE_RBF,
            },
        );
        i = i + 1;
    }
    Transaction {
        version: txn.version,
        lock_time: txn.lock_time,
        input,
        output: copy_outputs(&txn.output),
    }
}


/// Base size of the transaction that `is_mock_of` relates to `t`.
pub open spec fn mock_size(t: Transaction, pubkey: Seq<u8>) -> int {
    let ss = p2pkh_script_sig(dummy_signature(), pubkey).len() as int;
    4 + varint_size(t.input@.len() as int) + t.input@.len() * (40 + varint_size(ss) + ss)
        + varint_size(t.output@.len() as int) + outputs_size(t.output@) + 4
}

proof fn lemma_inputs_size_uniform(s: Seq<TxIn>, len: int)
    requires
        forall|k: int| 0 <= k < s.len() ==> (#[trigger] s[k]).script_sig@.len() == len,
    ensures
        inputs_size(s) == s.len() * (40 + varint_size(len) + len),
    decreases s.len(),
{
    if s.len() > 0 {
        lemma_inputs_size_uniform(s.drop_last(), len);
        assert(s.len() * (40 + varint_size(len) + len) == (s.len() - 1) * (40 + varint_size(len)
            + len) + (40 + varint_size(len) + len)) by (nonlinear_arith);
    }
}

proof fn lemma_outputs_size_same(a: Seq<TxOut>, b: Seq<TxOut>)
    requires
        same_outputs(a, b),
    ensures
        outputs_size(a) == outputs_size(b),
    decreases a.len(),
{
    if a.len() > 0 {
        assert(same_outputs(a.drop_last(), b.drop_last()));
        assert(a.last().script_pubkey@ == b.last().script_pubkey@);
        lemma_outputs_size_same(a.drop_last(), b.drop_last());
    }
}

/// The size of a placeholder-signed transaction depends only on the number
/// of inputs, the public key and the outputs.
pub proof fn lemma_mock_size(m: Transaction, t: Transaction, pubkey: Seq<u8>)
    requires
        is_mock_of(m, t, pubkey),
    ensures
        base_size(m) == mock_size(t, pubkey),
{
    let ss = p2pkh_script_sig(dummy_signature(), pubkey).len() as int;
    assert forall|k: int| 0 <= k < m.input@.len() implies (#[trigger] m.input@[k]).script_sig@.len() == ss by {
        assert(mock_input_ok(m.input@[k], t.input@[k], pubkey));
    }
    lemma_inputs_size_uniform(m.input@, ss);
    lemma_outputs_size_same(m.output@, t.output@);
}

/// Fee owed by `t`, signed by `pubkey`, at `fee_per_vbyte` millisatoshi per
/// virtual byte.
pub open spec fn fee_for(t: Transaction, pubkey: Seq<u8>, fee_per_vbyte: u64) -> int {
    mock_size(t, pubkey) * fee_per_vbyte / 1000
}

/// Size of `txn` once signed by `pubkey`, and the fee it owes at
/// `fee_per_vbyte`; `None` when the fee does not fit in 64 bits.
pub fn fee_of(txn: &Transaction, pubkey: &Vec<u8>, fee_per_vbyte: u64) -> (r: Option<u64>)
    requires
        txn.input@.len() > 0,
        pubkey@.len() < 0x10000,
    ensures
        r == if fee_for(*txn, pubkey@, fee_per_vbyte) <= u64::MAX {
            Some(fee_for(*txn, pubkey@, fee_per_vbyte) as u64)
        } else {
            None::<u64>
        },
        fee_for(*txn, pubkey@, fee_per_vbyte) >= 0,
{
    let signed = mock_signature(txn, pubkey);
    let size = vsize(&signed);
    proof {
        lemma_mock_size(signed, *txn, pubkey@);
        assert((size as int) * (fee_per_vbyte as int) <= u128::MAX) by (nonlinear_arith)
            requires
                size <= 0xffff_ffff_ffff_ffffint,
                fee_per_vbyte <= 0xffff_ffff_ffff_ffffint,
        ;
        assert((size as int) * (fee_per_vbyte as int) / 1000 >= 0) by (nonlinear_arith)
            requires
                size >= 0,
                fee_per_vbyte >= 0,
        ;
    }
    let f: u128 = (size as u128) * (fee_per_vbyte as u128) / 1000;
    if f <= u64::MAX as u128 {
        Some(f as u64)
    } else {
        None
    }
}


/// Serialised size of an output whose script has `len` bytes.
pub open spec fn out_size_of(len: int) -> int {
    8 + varint_size(len) + len
}

/// Largest signed size of a transaction with at most `n_in` inputs signed
/// by `pubkey`, at most `n_out` outputs and at most `out_bytes` bytes of
/// outputs.
pub open spec fn size_bound(n_in: int, n_out: int, out_bytes: int, pubkey: Seq<u8>) -> int {
    let ss = p2pkh_script_sig(dummy_signature(), pubkey).len() as int;
    4 + varint_size(n_in) + n_in * (40 + varint_size(ss) + ss) + varint_size(n_out) + out_bytes + 4
}

/// Largest fee that such a transaction can owe at `fee_per_vbyte`.
pub open spec fn fee_cap(n_in: int, n_out: int, out_bytes: int, pubkey: Seq<u8>, fee_per_vbyte: u64) -> int {
    size_bound(n_in, n_out, out_bytes, pubkey) * fee_per_vbyte / 1000
}

/// A transaction within the bounds owes no more than the cap.
pub proof fn lemma_fee_within_cap(
    t: Transaction,
    pubkey: Seq<u8>,
    fee_per_vbyte: u64,
    n_in: int,
    n_out: int,
    out_bytes: int,
)
    requires
        t.input@.len() <= n_in,
        t.output@.len() <= n_out,
        outputs_size(t.output@) <= out_bytes,
    ensures
        0 <= fee_for(t, pubkey, fee_per_vbyte) <= fee_cap(n_in, n_out, out_bytes, pubkey, fee_per_vbyte),
{
    let ss = p2pkh_script_sig(dummy_signature(), pubkey).len() as int;
    let c = 40 + varint_size(ss) + ss;
    let k = t.input@.len() as int;
    assert(k * c <= n_in * c) by (nonlinear_arith)
        requires
            0 <= k <= n_in,
            c >= 0,
    ;
    assert(k * c >= 0) by (nonlinear_arith)
        requires
            0 <= k,
            c >= 0,
    ;
    lemma_outputs_size_nonneg(t.output@);
    let a = mock_size(t, pubkey);
    let b = size_bound(n_in, n_out, out_bytes, pubkey);
    assert(0 <= a <= b);
    let r = fee_per_vbyte as int;
    assert(a * r <= b * r && 0 <= a * r) by (nonlinear_arith)
        requires
            0 <= a <= b,
            r >= 0,
    ;
    vstd::arithmetic::div_mod::lemma_div_is_ordered(a * r, b * r, 1000);
    vstd::arithmetic::div_mod::lemma_div_pos_is_pos(a * r, 1000);
}

proof fn lemma_outputs_size_nonneg(s: Seq<TxOut>)
    ensures
        outputs_size(s) >= 0,
    decreases s.len(),
{
    if s.len() > 0 {
        lemma_outputs_size_nonneg(s.drop_last());
    }
}

/// Compact-size length of `n`.
pub fn varint_len(n: u128) -> (r: u128)
    ensures
        r == varint_size(n as int),
{
    if n <= 0xfc {
        1
    } else if n <= 0xffff {
        3
    } else if n <= 0xffff_ffff {
        5
    } else {
        9
    }
}

/// Serialised size of an output whose script has `len` bytes.
pub fn out_len(len: usize) -> (r: u128)
    ensures
        r == out_size_of(len as int),
{
    8 + varint_len(len as u128) + len as u128
}

/// `fee_cap` when it fits in 64 bits.
pub fn compute_fee_cap(n_in: u128, n_out: u128, out_bytes: u128, pubkey: &Vec<u8>, fee_per_vbyte: u64) -> (r:
    Option<u64>)
    requires
        pubkey@.len() < 0x10000,
        n_in <= 0x4_0000_0000_0000_0000,
        n_out <= 0x100,
        out_bytes <= 0x1_0000_0000_0000_0000_0000,
    ensures
        r == if fee_cap(n_in as int, n_out as int, out_bytes as int, pubkey@, fee_per_vbyte) <= u64::MAX {
            Some(fee_cap(n_in as int, n_out as int, out_bytes as int, pubkey@, fee_per_vbyte) as u64)
        } else {
            None::<u64>
        },
{
    let mut dummy: Vec<u8> = Vec::new();
    let mut j: usize = 0;
    while j < 64
        invariant
            j <= 64,
            dummy@ == Seq::new(j as nat, |i: int| 0xffu8),
        decreases 64 - j,
    {
        dummy.push(0xff);
        j = j + 1;
        proof {
            assert(dummy@ =~= Seq::new(j as nat, |i: int| 0xffu8));
        }
    }
    let ss = script_sig_for(&dummy, pubkey).len() as u128;
    assert(ss < 0x20000);
    let per_input: u128 = 40 + varint_len(ss) + ss;
    proof {
        assert((n_in as int) * (per_input as int) <= 0x4_0000_0000_0000_0000 * 0x30000) by (nonlinear_arith)
            requires
                n_in <= 0x4_0000_0000_0000_0000int,
                per_input <= 0x30000int,
        ;
    }
    let size: u128 = 4 + varint_len(n_in) + n_in * per_input + varint_len(n_out) + out_bytes + 4;
    match size.checked_mul(fee_per_vbyte as u128) {
        None => {
            proof {
                vstd::arithmetic::div_mod::lemma_div_is_ordered(0x1_0000_0000_0000_0000int * 1000, (size as int) * (fee_per_vbyte as int), 1000);
            }
            None
        },
        Some(p) => {
            let c = p / 1000;
            if c <= u64::MAX as u128 {
                Some(c as u64)
            } else {
                None
            }
        },
    }
}

} // verus!
