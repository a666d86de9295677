//! Sets of outputs kept as lists without repeated outpoints: order, recording, selection and sums.

use vstd::prelude::*;

use crate::types::{OutPoint, RunicUtxo, Utxo};

verus! {

/// Lexicographic order on byte strings (a proper prefix comes first).
pub open spec fn bytes_lt(a: Seq<u8>, b: Seq<u8>) -> bool
    decreases a.len(),
{
    if a.len() == 0 {
        b.len() > 0
    } else if b.len() == 0 {
        false
    } else if a[0] != b[0] {
        a[0] < b[0]
    } else {
        bytes_lt(a.drop_first(), b.drop_first())
    }
}

/// Total order on outpoints: by transaction id, then by output index.
pub open spec fn outpoint_lt(a: OutPoint, b: OutPoint) -> bool {
    bytes_lt(a.txid@, b.txid@) || (a.txid@ == b.txid@ && a.vout < b.vout)
}

pub open spec fn same_outpoint(a: OutPoint, b: OutPoint) -> bool {
    a.txid@ == b.txid@ && a.vout == b.vout
}

/// `a` is selected before `b`: smaller value, ties broken by outpoint.
pub open spec fn btc_before(a: Utxo, b: Utxo) -> bool {
    a.value < b.value || (a.value == b.value && outpoint_lt(a.outpoint, b.outpoint))
}

/// `a` is selected before `b`: smaller rune balance, ties broken by outpoint.
pub open spec fn runic_before(a: RunicUtxo, b: RunicUtxo) -> bool {
    a.balance < b.balance || (a.balance == b.balance && outpoint_lt(a.utxo.outpoint, b.utxo.outpoint))
}

proof fn lemma_bytes_lt_irrefl(a: Seq<u8>)
    ensures
        !bytes_lt(a, a),
    decreases a.len(),
{
    if a.len() > 0 {
        lemma_bytes_lt_irrefl(a.drop_first());
    }
}

proof fn lemma_bytes_lt_trans(a: Seq<u8>, b: Seq<u8>, c: Seq<u8>)
    requires
        bytes_lt(a, b),
        bytes_lt(b, c),
    ensures
        bytes_lt(a, c),
    decreases a.len(),
{
    if a.len() > 0 && b.len() > 0 && c.len() > 0 && a[0] == b[0] && b[0] == c[0] {
        lemma_bytes_lt_trans(a.drop_first(), b.drop_first(), c.drop_first());
    }
}

proof fn lemma_bytes_lt_asym(a: Seq<u8>, b: Seq<u8>)
    requires
        bytes_lt(a, b),
    ensures
        !bytes_lt(b, a),
        a != b,
    decreases a.len(),
{
    if a.len() > 0 && b.len() > 0 && a[0] == b[0] {
        lemma_bytes_lt_asym(a.drop_first(), b.drop_first());
        if a == b {
            assert(a.drop_first() == b.drop_first());
        }
    }
}

pub proof fn lemma_outpoint_order(a: OutPoint, b: OutPoint, c: OutPoint)
    ensures
        !outpoint_lt(a, a),
        outpoint_lt(a, b) && outpoint_lt(b, c) ==> outpoint_lt(a, c),
        outpoint_lt(a, b) ==> !outpoint_lt(b, a),
{
    lemma_bytes_lt_irrefl(a.txid@);
    if bytes_lt(a.txid@, b.txid@) {
        lemma_bytes_lt_asym(a.txid@, b.txid@);
    }
    if bytes_lt(a.txid@, b.txid@) && bytes_lt(b.txid@, c.txid@) {
        lemma_bytes_lt_trans(a.txid@, b.txid@, c.txid@);
    }
}

/// Compares two transaction ids in the order of `bytes_lt`.
fn txid_lt(a: &[u8; 32], b: &[u8; 32]) -> (r: bool)
    ensures
        r == bytes_lt(a@, b@),
{
    let mut i: usize = 0;
    proof {
        assert(a@.subrange(0, 32) =~= a@);
        assert(b@.subrange(0, 32) =~= b@);
    }
    while i < 32
        invariant
            a@.len() == 32,
            b@.len() == 32,
            i <= 32,
            a@.subrange(0, i as int) == b@.subrange(0, i as int),
            bytes_lt(a@, b@) == bytes_lt(a@.subrange(i as int, 32), b@.subrange(i as int, 32)),
        decreases 32 - i,
    {
        let x = a[i];
        let y = b[i];
        proof {
            let sa = a@.subrange(i as int, 32);
            let sb = b@.subrange(i as int, 32);
            assert(sa[0] == x && sb[0] == y);
            assert(sa.drop_first() =~= a@.subrange(i + 1, 32));
            assert(sb.drop_first() =~= b@.subrange(i + 1, 32));
        }
        if x != y {
            return x < y;
        }
        proof {
            assert(a@.subrange(0, i + 1) =~= a@.subrange(0, i as int).push(x));
            assert(b@.subrange(0, i + 1) =~= b@.subrange(0, i as int).push(y));
        }
        i = i + 1;
    }
    proof {
        assert(a@.subrange(32, 32).len() == 0);
    }
    false
}

fn txid_eq(a: &[u8; 32], b: &[u8; 32]) -> (r: bool)
    ensures
        r == (a@ == b@),
{
    let mut i: usize = 0;
    while i < 32
        invariant
            a@.len() == 32,
            b@.len() == 32,
            i <= 32,
            forall|k: int| 0 <= k < i ==> a@[k] == b@[k],
        decreases 32 - i,
    {
        if a[i] != b[i] {
            return false;
        }
        i = i + 1;
    }
    assert(a@ =~= b@);
    true
}

pub fn outpoint_eq(a: &OutPoint, b: &OutPoint) -> (r: bool)
    ensures
        r == same_outpoint(*a, *b),
{
    a.vout == b.vout && txid_eq(&a.txid, &b.txid)
}

fn outpoint_less(a: &OutPoint, b: &OutPoint) -> (r: bool)
    ensures
        r == outpoint_lt(*a, *b),
{
    if txid_lt(&a.txid, &b.txid) {
        true
    } else {
        txid_eq(&a.txid, &b.txid) && a.vout < b.vout
    }
}

/// Whether some element of `s` has outpoint `o`.
pub open spec fn has_outpoint(s: Seq<Utxo>, o: OutPoint) -> bool {
    exists|k: int| 0 <= k < s.len() && same_outpoint(#[trigger] s[k].outpoint, o)
}

pub open spec fn runic_has_outpoint(s: Seq<RunicUtxo>, o: OutPoint) -> bool {
    exists|k: int| 0 <= k < s.len() && same_outpoint(#[trigger] s[k].utxo.outpoint, o)
}

/// No outpoint occurs twice.
pub open spec fn btc_unique(s: Seq<Utxo>) -> bool {
    forall|i: int, j: int|
        0 <= i < j < s.len() ==> !same_outpoint(#[trigger] s[i].outpoint, #[trigger] s[j].outpoint)
}

pub open spec fn runic_unique(s: Seq<RunicUtxo>) -> bool {
    forall|i: int, j: int|
        0 <= i < j < s.len() ==> !same_outpoint(
            #[trigger] s[i].utxo.outpoint,
            #[trigger] s[j].utxo.outpoint,
        )
}

/// `s` after recording each of `new` in turn, skipping outpoints already present.
pub open spec fn btc_record(s: Seq<Utxo>, new: Seq<Utxo>) -> Seq<Utxo>
    decreases new.len(),
{
    if new.len() == 0 {
        s
    } else {
        let acc = btc_record(s, new.drop_last());
        if has_outpoint(acc, new.last().outpoint) {
            acc
        } else {
            acc.push(new.last())
        }
    }
}

pub open spec fn runic_record(s: Seq<RunicUtxo>, new: Seq<RunicUtxo>) -> Seq<RunicUtxo>
    decreases new.len(),
{
    if new.len() == 0 {
        s
    } else {
        let acc = runic_record(s, new.drop_last());
        if runic_has_outpoint(acc, new.last().utxo.outpoint) {
            acc
        } else {
            acc.push(new.last())
        }
    }
}

/// Sum of the values of `s`.
pub open spec fn value_sum(s: Seq<Utxo>) -> int
    decreases s.len(),
{
    if s.len() == 0 {
        0
    } else {
        value_sum(s.drop_last()) + s.last().value
    }
}

/// Sum of the rune balances of `s`.
pub open spec fn balance_sum(s: Seq<RunicUtxo>) -> int
    decreases s.len(),
{
    if s.len() == 0 {
        0
    } else {
        balance_sum(s.drop_last()) + s.last().balance
    }
}

/// Sum of the satoshi values of the outputs under `s`.
pub open spec fn runic_value_sum(s: Seq<RunicUtxo>) -> int
    decreases s.len(),
{
    if s.len() == 0 {
        0
    } else {
        runic_value_sum(s.drop_last()) + s.last().utxo.value
    }
}

/// Index of the element of `s` that is selected first.
pub open spec fn is_btc_min(s: Seq<Utxo>, i: int) -> bool {
    0 <= i < s.len() && forall|k: int| 0 <= k < s.len() ==> !btc_before(#[trigger] s[k], s[i])
}

pub open spec fn is_runic_min(s: Seq<RunicUtxo>, i: int) -> bool {
    0 <= i < s.len() && forall|k: int| 0 <= k < s.len() ==> !runic_before(#[trigger] s[k], s[i])
}

fn find_btc(s: &Vec<Utxo>, o: &OutPoint) -> (r: Option<usize>)
    ensures
        match r {
            Some(i) => i < s@.len() && same_outpoint(s@[i as int].outpoint, *o),
            None => !has_outpoint(s@, *o),
        },
{
    let mut i: usize = 0;
    while i < s.len()
        invariant
            i <= s@.len(),
            forall|k: int| 0 <= k < i ==> !same_outpoint(#[trigger] s@[k].outpoint, *o),
        decreases s@.len() - i,
    {
        if outpoint_eq(&s[i].outpoint, o) {
            return Some(i);
        }
        i = i + 1;
    }
    None
}

fn find_runic(s: &Vec<RunicUtxo>, o: &OutPoint) -> (r: Option<usize>)
    ensures
        match r {
            Some(i) => i < s@.len() && same_outpoint(s@[i as int].utxo.outpoint, *o),
            None => !runic_has_outpoint(s@, *o),
        },
{
    let mut i: usize = 0;
    while i < s.len()
        invariant
            i <= s@.len(),
            forall|k: int| 0 <= k < i ==> !same_outpoint(#[trigger] s@[k].utxo.outpoint, *o),
        decreases s@.len() - i,
    {
        if outpoint_eq(&s[i].utxo.outpoint, o) {
            return Some(i);
        }
        i = i + 1;
    }
    None
}

pub fn contains_btc(s: &Vec<Utxo>, o: &OutPoint) -> (r: bool)
    ensures
        r == has_outpoint(s@, *o),
{
    find_btc(s, o).is_some()
}

pub fn contains_runic(s: &Vec<RunicUtxo>, o: &OutPoint) -> (r: bool)
    ensures
        r == runic_has_outpoint(s@, *o),
{
    find_runic(s, o).is_some()
}

/// Records each of `new` into `s`, skipping outpoints already present.
pub fn record_btc(s: &mut Vec<Utxo>, new: &Vec<Utxo>)
    requires
        btc_unique(old(s)@),
    ensures
        final(s)@ == btc_record(old(s)@, new@),
        btc_unique(final(s)@),
{
    let mut i: usize = 0;
    while i < new.len()
        invariant
            i <= new@.len(),
            s@ == btc_record(old(s)@, new@.subrange(0, i as int)),
            btc_unique(s@),
        decreases new@.len() - i,
    {
        let u = new[i];
        proof {
            let p = new@.subrange(0, i + 1);
            assert(p.drop_last() =~= new@.subrange(0, i as int));
            assert(p.last() == u);
        }
        if !contains_btc(s, &u.outpoint) {
            s.push(u);
            proof {
                assert forall|a: int, b: int| 0 <= a < b < s@.len() implies !same_outpoint(
                    #[trigger] s@[a].outpoint,
                    #[trigger] s@[b].outpoint,
                ) by {
                    if b == s@.len() - 1 {
                        if same_outpoint(s@[a].outpoint, s@[b].outpoint) {
                            assert(same_outpoint(s@[a].outpoint, u.outpoint));
                        }
                    }
                }
            }
        }
        i = i + 1;
    }
    assert(new@.subrange(0, new@.len() as int) =~= new@);
}

/// Records each of `new` into `s`, skipping outpoints already present.
pub fn record_runic(s: &mut Vec<RunicUtxo>, new: &Vec<RunicUtxo>)
    requires
        runic_unique(old(s)@),
    ensures
        final(s)@ == runic_record(old(s)@, new@),
        runic_unique(final(s)@),
{
    let mut i: usize = 0;
    while i < new.len()
        invariant
            i <= new@.len(),
            s@ == runic_record(old(s)@, new@.subrange(0, i as int)),
            runic_unique(s@),
        decreases new@.len() - i,
    {
        let u = new[i];
        proof {
            let p = new@.subrange(0, i + 1);
            assert(p.drop_last() =~= new@.subrange(0, i as int));
            assert(p.last() == u);
        }
        if !contains_runic(s, &u.utxo.outpoint) {
            s.push(u);
            proof {
                assert forall|a: int, b: int| 0 <= a < b < s@.len() implies !same_outpoint(
                    #[trigger] s@[a].utxo.outpoint,
                    #[trigger] s@[b].utxo.outpoint,
                ) by {
                    if b == s@.len() - 1 {
                        if same_outpoint(s@[a].utxo.outpoint, s@[b].utxo.outpoint) {
                            assert(same_outpoint(s@[a].utxo.outpoint, u.utxo.outpoint));
                        }
                    }
                }
            }
        }
        i = i + 1;
    }
    assert(new@.subrange(0, new@.len() as int) =~= new@);
}


proof fn lemma_btc_unique_remove(s: Seq<Utxo>, i: int)
    requires
        btc_unique(s),
        0 <= i < s.len(),
    ensures
        btc_unique(s.remove(i)),
        !has_outpoint(s.remove(i), s[i].outpoint),
{
    let t = s.remove(i);
    assert forall|a: int, b: int| 0 <= a < b < t.len() implies !same_outpoint(
        #[trigger] t[a].outpoint,
        #[trigger] t[b].outpoint,
    ) by {
        let a2 = if a < i { a } else { a + 1 };
        let b2 = if b < i { b } else { b + 1 };
        assert(t[a] == s[a2] && t[b] == s[b2]);
    }
    if has_outpoint(t, s[i].outpoint) {
        let k = choose|k: int| 0 <= k < t.len() && same_outpoint(#[trigger] t[k].outpoint, s[i].outpoint);
        let k2 = if k < i { k } else { k + 1 };
        assert(t[k] == s[k2]);
        if k2 < i {
            assert(!same_outpoint(s[k2].outpoint, s[i].outpoint));
        } else {
            assert(!same_outpoint(s[i].outpoint, s[k2].outpoint));
        }
    }
}

proof fn lemma_runic_unique_remove(s: Seq<RunicUtxo>, i: int)
    requires
        runic_unique(s),
        0 <= i < s.len(),
    ensures
        runic_unique(s.remove(i)),
        !runic_has_outpoint(s.remove(i), s[i].utxo.outpoint),
{
    let t = s.remove(i);
    assert forall|a: int, b: int| 0 <= a < b < t.len() implies !same_outpoint(
        #[trigger] t[a].utxo.outpoint,
        #[trigger] t[b].utxo.outpoint,
    ) by {
        let a2 = if a < i { a } else { a + 1 };
        let b2 = if b < i { b } else { b + 1 };
        assert(t[a] == s[a2] && t[b] == s[b2]);
    }
    if runic_has_outpoint(t, s[i].utxo.outpoint) {
        let k = choose|k: int|
            0 <= k < t.len() && same_outpoint(#[trigger] t[k].utxo.outpoint, s[i].utxo.outpoint);
        let k2 = if k < i { k } else { k + 1 };
        assert(t[k] == s[k2]);
        if k2 < i {
            assert(!same_outpoint(s[k2].utxo.outpoint, s[i].utxo.outpoint));
        } else {
            assert(!same_outpoint(s[i].utxo.outpoint, s[k2].utxo.outpoint));
        }
    }
}

pub proof fn lemma_value_sum_remove(s: Seq<Utxo>, i: int)
    requires
        0 <= i < s.len(),
    ensures
        value_sum(s.remove(i)) + s[i].value == value_sum(s),
    decreases s.len(),
{
    if i == s.len() - 1 {
        assert(s.remove(i) =~= s.drop_last());
    } else {
        assert(s.remove(i).drop_last() =~= s.drop_last().remove(i));
        assert(s.remove(i).last() == s.last());
        assert(s.drop_last()[i] == s[i]);
        lemma_value_sum_remove(s.drop_last(), i);
    }
}

pub proof fn lemma_balance_sum_remove(s: Seq<RunicUtxo>, i: int)
    requires
        0 <= i < s.len(),
    ensures
        balance_sum(s.remove(i)) + s[i].balance == balance_sum(s),
        runic_value_sum(s.remove(i)) + s[i].utxo.value == runic_value_sum(s),
    decreases s.len(),
{
    if i == s.len() - 1 {
        assert(s.remove(i) =~= s.drop_last());
    } else {
        assert(s.remove(i).drop_last() =~= s.drop_last().remove(i));
        assert(s.remove(i).last() == s.last());
        assert(s.drop_last()[i] == s[i]);
        lemma_balance_sum_remove(s.drop_last(), i);
    }
}

proof fn lemma_value_sum_nonneg(s: Seq<Utxo>)
    ensures
        value_sum(s) >= 0,
    decreases s.len(),
{
    if s.len() > 0 {
        lemma_value_sum_nonneg(s.drop_last());
    }
}

proof fn lemma_balance_sum_nonneg(s: Seq<RunicUtxo>)
    ensures
        balance_sum(s) >= 0,
        runic_value_sum(s) >= 0,
    decreases s.len(),
{
    if s.len() > 0 {
        lemma_balance_sum_nonneg(s.drop_last());
    }
}

/// Removes and returns the element selected first: least value, ties broken
/// by outpoint.
pub fn take_min_btc(s: &mut Vec<Utxo>) -> (r: Option<Utxo>)
    requires
        btc_unique(old(s)@),
    ensures
        btc_unique(final(s)@),
        old(s)@.len() == 0 ==> r.is_none() && final(s)@ == old(s)@,
        old(s)@.len() > 0 ==> exists|i: int|
            is_btc_min(old(s)@, i) && r == Some(old(s)@[i]) && final(s)@ == old(s)@.remove(i),
{
    if s.len() == 0 {
        return None;
    }
    let mut best: usize = 0;
    let mut j: usize = 1;
    proof {
        lemma_outpoint_order(s@[0].outpoint, s@[0].outpoint, s@[0].outpoint);
    }
    while j < s.len()
        invariant
            best < j <= s@.len(),
            forall|k: int| 0 <= k < j ==> !btc_before(#[trigger] s@[k], s@[best as int]),
        decreases s@.len() - j,
    {
        let c = s[j];
        let b = s[best];
        if c.value < b.value || (c.value == b.value && outpoint_less(&c.outpoint, &b.outpoint)) {
            proof {
                assert forall|k: int| 0 <= k < j + 1 implies !btc_before(#[trigger] s@[k], c) by {
                    lemma_outpoint_order(s@[k].outpoint, c.outpoint, b.outpoint);
                    lemma_outpoint_order(c.outpoint, c.outpoint, c.outpoint);
                }
            }
            best = j;
        }
        j = j + 1;
    }
    proof {
        lemma_btc_unique_remove(s@, best as int);
        assert(is_btc_min(s@, best as int));
    }
    let u = s.remove(best);
    Some(u)
}

/// Removes and returns the element selected first: least rune balance, ties
/// broken by outpoint.
pub fn take_min_runic(s: &mut Vec<RunicUtxo>) -> (r: Option<RunicUtxo>)
    requires
        runic_unique(old(s)@),
    ensures
        runic_unique(final(s)@),
        old(s)@.len() == 0 ==> r.is_none() && final(s)@ == old(s)@,
        old(s)@.len() > 0 ==> exists|i: int|
            is_runic_min(old(s)@, i) && r == Some(old(s)@[i]) && final(s)@ == old(s)@.remove(i),
{
    if s.len() == 0 {
        return None;
    }
    let mut best: usize = 0;
    let mut j: usize = 1;
    proof {
        lemma_outpoint_order(s@[0].utxo.outpoint, s@[0].utxo.outpoint, s@[0].utxo.outpoint);
    }
    while j < s.len()
        invariant
            best < j <= s@.len(),
            forall|k: int| 0 <= k < j ==> !runic_before(#[trigger] s@[k], s@[best as int]),
        decreases s@.len() - j,
    {
        let c = s[j];
        let b = s[best];
        if c.balance < b.balance || (c.balance == b.balance && outpoint_less(
            &c.utxo.outpoint,
            &b.utxo.outpoint,
        )) {
            proof {
                assert forall|k: int| 0 <= k < j + 1 implies !runic_before(#[trigger] s@[k], c) by {
                    lemma_outpoint_order(s@[k].utxo.outpoint, c.utxo.outpoint, b.utxo.outpoint);
                    lemma_outpoint_order(c.utxo.outpoint, c.utxo.outpoint, c.utxo.outpoint);
                }
            }
            best = j;
        }
        j = j + 1;
    }
    proof {
        lemma_runic_unique_remove(s@, best as int);
        assert(is_runic_min(s@, best as int));
    }
    let u = s.remove(best);
    Some(u)
}

/// Removes the element with outpoint `o`, if any.
pub fn remove_btc(s: &mut Vec<Utxo>, o: &OutPoint)
    requires
        btc_unique(old(s)@),
    ensures
        btc_unique(final(s)@),
        !has_outpoint(final(s)@, *o),
        !has_outpoint(old(s)@, *o) ==> final(s)@ == old(s)@,
        has_outpoint(old(s)@, *o) ==> exists|i: int|
            0 <= i < old(s)@.len() && same_outpoint(old(s)@[i].outpoint, *o) && final(s)@ == old(
                s,
            )@.remove(i),
{
    match find_btc(s, o) {
        Some(i) => {
            proof {
                lemma_btc_unique_remove(s@, i as int);
            }
            s.remove(i);
        },
        None => {},
    }
}

/// Total value of `s`, saturating at `u64::MAX`.
pub fn total_value(s: &Vec<Utxo>) -> (r: u64)
    ensures
        r == if value_sum(s@) <= u64::MAX { value_sum(s@) } else { u64::MAX as int },
{
    let mut acc: u64 = 0;
    let mut i: usize = 0;
    while i < s.len()
        invariant
            i <= s@.len(),
            acc == if value_sum(s@.subrange(0, i as int)) <= u64::MAX {
                value_sum(s@.subrange(0, i as int))
            } else {
                u64::MAX as int
            },
        decreases s@.len() - i,
    {
        let v = s[i].value;
        proof {
            assert(s@.subrange(0, i + 1).drop_last() =~= s@.subrange(0, i as int));
            lemma_value_sum_nonneg(s@.subrange(0, i as int));
        }
        if acc > u64::MAX - v {
            acc = u64::MAX;
        } else {
            acc = acc + v;
        }
        i = i + 1;
    }
    assert(s@.subrange(0, s@.len() as int) =~= s@);
    acc
}

/// Total rune balance of `s`, saturating at `u128::MAX`.
pub fn total_balance(s: &Vec<RunicUtxo>) -> (r: u128)
    ensures
        r == if balance_sum(s@) <= u128::MAX { balance_sum(s@) } else { u128::MAX as int },
{
    let mut acc: u128 = 0;
    let mut i: usize = 0;
    while i < s.len()
        invariant
            i <= s@.len(),
            acc == if balance_sum(s@.subrange(0, i as int)) <= u128::MAX {
                balance_sum(s@.subrange(0, i as int))
            } else {
                u128::MAX as int
            },
        decreases s@.len() - i,
    {
        let v = s[i].balance;
        proof {
            assert(s@.subrange(0, i + 1).drop_last() =~= s@.subrange(0, i as int));
            lemma_balance_sum_nonneg(s@.subrange(0, i as int));
        }
        if acc > u128::MAX - v {
            acc = u128::MAX;
        } else {
            acc = acc + v;
        }
        i = i + 1;
    }
    assert(s@.subrange(0, s@.len() as int) =~= s@);
    acc
}

} // verus!
