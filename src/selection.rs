//! Least-first coin selection out of the UTXO index.

use vstd::prelude::*;

use crate::types::{RuneId, RunicUtxo, Utxo};
use crate::utxo_manager::UtxoManager;
use crate::utxo_set::{
    balance_sum, btc_before, btc_record, btc_unique, has_outpoint, is_btc_min, is_runic_min,
    runic_before, runic_has_outpoint, runic_record, runic_unique, runic_value_sum, same_outpoint,
    value_sum,
};

verus! {

broadcast use vstd::seq_lib::group_to_multiset_ensures, vstd::seq_lib::lemma_multiset_commutative;

/// `x`, saturated at `u128::MAX`.
pub open spec fn sat128(x: int) -> int {
    if x <= u128::MAX {
        x
    } else {
        u128::MAX as int
    }
}

pub proof fn lemma_runic_sums_nonneg(s: Seq<RunicUtxo>)
    ensures
        balance_sum(s) >= 0,
        runic_value_sum(s) >= 0,
    decreases s.len(),
{
    if s.len() > 0 {
        lemma_runic_sums_nonneg(s.drop_last());
    }
}

pub proof fn lemma_value_sum_nonneg(s: Seq<Utxo>)
    ensures
        value_sum(s) >= 0,
    decreases s.len(),
{
    if s.len() > 0 {
        lemma_value_sum_nonneg(s.drop_last());
    }
}

/// Largest amount that a selection may aim for.
pub const MAX_TARGET: u128 = 0x1_0000_0000_0000_0000_0000_0000;

proof fn lemma_unique_take(r: Seq<Utxo>, s: Seq<Utxo>, i: int)
    requires
        btc_unique(r + s),
        0 <= i < r.len(),
    ensures
        btc_unique(r.remove(i) + s.push(r[i])),
        (r.remove(i) + s.push(r[i])).to_multiset() == (r + s).to_multiset(),
{
    let a = r + s;
    let b = r.remove(i) + s.push(r[i]);
    let n = r.len();
    assert forall|p: int| 0 <= p < b.len() implies b[p] == a[if p < i {
        p
    } else if p < n - 1 {
        p + 1
    } else if p < b.len() - 1 {
        p + 1
    } else {
        i
    }] by {}
    assert forall|p: int, q: int| 0 <= p < q < b.len() implies !same_outpoint(
        #[trigger] b[p].outpoint,
        #[trigger] b[q].outpoint,
    ) by {
        let fp = if p < i { p } else if p < n - 1 { p + 1 } else if p < b.len() - 1 { p + 1 } else { i };
        let fq = if q < i { q } else if q < n - 1 { q + 1 } else if q < b.len() - 1 { q + 1 } else { i };
        assert(fp != fq);
        if fp < fq {
            assert(!same_outpoint(a[fp].outpoint, a[fq].outpoint));
        } else {
            assert(!same_outpoint(a[fq].outpoint, a[fp].outpoint));
        }
    }
    assert(r.remove(i).to_multiset() == r.to_multiset().remove(r[i]));
    assert(r.to_multiset().count(r[i]) > 0);
}

proof fn lemma_runic_unique_take(r: Seq<RunicUtxo>, s: Seq<RunicUtxo>, i: int)
    requires
        runic_unique(r + s),
        0 <= i < r.len(),
    ensures
        runic_unique(r.remove(i) + s.push(r[i])),
        (r.remove(i) + s.push(r[i])).to_multiset() == (r + s).to_multiset(),
{
    let a = r + s;
    let b = r.remove(i) + s.push(r[i]);
    let n = r.len();
    assert forall|p: int| 0 <= p < b.len() implies b[p] == a[if p < i {
        p
    } else if p < n - 1 {
        p + 1
    } else if p < b.len() - 1 {
        p + 1
    } else {
        i
    }] by {}
    assert forall|p: int, q: int| 0 <= p < q < b.len() implies !same_outpoint(
        #[trigger] b[p].utxo.outpoint,
        #[trigger] b[q].utxo.outpoint,
    ) by {
        let fp = if p < i { p } else if p < n - 1 { p + 1 } else if p < b.len() - 1 { p + 1 } else { i };
        let fq = if q < i { q } else if q < n - 1 { q + 1 } else if q < b.len() - 1 { q + 1 } else { i };
        assert(fp != fq);
        if fp < fq {
            assert(!same_outpoint(a[fp].utxo.outpoint, a[fq].utxo.outpoint));
        } else {
            assert(!same_outpoint(a[fq].utxo.outpoint, a[fp].utxo.outpoint));
        }
    }
    assert(r.remove(i).to_multiset() == r.to_multiset().remove(r[i]));
    assert(r.to_multiset().count(r[i]) > 0);
}

/// Recording outputs that are distinct from each other and from the set
/// appends them.
pub proof fn lemma_record_disjoint(r: Seq<Utxo>, s: Seq<Utxo>)
    requires
        btc_unique(r + s),
    ensures
        btc_record(r, s) == r + s,
    decreases s.len(),
{
    if s.len() > 0 {
        let s0 = s.drop_last();
        assert((r + s0) =~= (r + s).subrange(0, (r + s).len() - 1));
        assert(btc_unique(r + s0)) by {
            assert forall|p: int, q: int| 0 <= p < q < (r + s0).len() implies !same_outpoint(
                #[trigger] (r + s0)[p].outpoint,
                #[trigger] (r + s0)[q].outpoint,
            ) by {
                assert((r + s0)[p] == (r + s)[p] && (r + s0)[q] == (r + s)[q]);
            }
        }
        lemma_record_disjoint(r, s0);
        let x = s.last();
        if has_outpoint(r + s0, x.outpoint) {
            let k = choose|k: int|
                0 <= k < (r + s0).len() && same_outpoint(#[trigger] (r + s0)[k].outpoint, x.outpoint);
            assert((r + s)[k] == (r + s0)[k]);
            assert((r + s)[(r + s).len() - 1] == x);
        }
        assert((r + s0).push(x) =~= r + s);
    }
}

pub proof fn lemma_runic_record_disjoint(r: Seq<RunicUtxo>, s: Seq<RunicUtxo>)
    requires
        runic_unique(r + s),
    ensures
        runic_record(r, s) == r + s,
    decreases s.len(),
{
    if s.len() > 0 {
        let s0 = s.drop_last();
        assert(runic_unique(r + s0)) by {
            assert forall|p: int, q: int| 0 <= p < q < (r + s0).len() implies !same_outpoint(
                #[trigger] (r + s0)[p].utxo.outpoint,
                #[trigger] (r + s0)[q].utxo.outpoint,
            ) by {
                assert((r + s0)[p] == (r + s)[p] && (r + s0)[q] == (r + s)[q]);
            }
        }
        lemma_runic_record_disjoint(r, s0);
        let x = s.last();
        if runic_has_outpoint(r + s0, x.utxo.outpoint) {
            let k = choose|k: int|
                0 <= k < (r + s0).len() && same_outpoint(
                    #[trigger] (r + s0)[k].utxo.outpoint,
                    x.utxo.outpoint,
                );
            assert((r + s)[k] == (r + s0)[k]);
            assert((r + s)[(r + s).len() - 1] == x);
        }
        assert((r + s0).push(x) =~= r + s);
    }
}

/// Moves least-value plain outputs of `addr` from the index into `sel` until
/// `total` reaches `target` or none is left.
pub fn select_btc(m: &mut UtxoManager, addr: &str, target: u128, sel: &mut Vec<Utxo>, total: &mut u128)
    requires
        old(m).wf(),
        target <= MAX_TARGET,
        *old(total) == value_sum(old(sel)@),
        *old(total) <= MAX_TARGET + u64::MAX,
        btc_unique(old(m).btc(addr@) + old(sel)@),
    ensures
        final(m).wf(),
        old(m).btc_frame(final(m), addr@),
        *final(total) == value_sum(final(sel)@),
        *final(total) <= MAX_TARGET + u64::MAX,
        final(sel)@.len() >= old(sel)@.len(),
        final(sel)@.subrange(0, old(sel)@.len() as int) == old(sel)@,
        btc_unique(final(m).btc(addr@) + final(sel)@),
        (final(m).btc(addr@) + final(sel)@).to_multiset() == (old(m).btc(addr@) + old(
            sel,
        )@).to_multiset(),
        *final(total) >= target || final(m).btc(addr@).len() == 0,
        *old(total) >= target ==> final(sel)@ == old(sel)@ && final(m).btc(addr@) == old(m).btc(
            addr@,
        ),
        final(sel)@.len() > old(sel)@.len() ==> value_sum(final(sel)@.drop_last()) < target,
        forall|x: int, k: int|
            0 <= x < final(m).btc(addr@).len() && old(sel)@.len() <= k < final(sel)@.len()
                ==> !btc_before(#[trigger] final(m).btc(addr@)[x], #[trigger] final(sel)@[k]),
{
    let ghost m0 = *m;
    let ghost s0 = sel@;
    while *total < target
        invariant
            m.wf(),
            target <= MAX_TARGET,
            m0.btc_frame(m, addr@),
            *total == value_sum(sel@),
            *total <= MAX_TARGET + u64::MAX,
            sel@.len() >= s0.len(),
            sel@.subrange(0, s0.len() as int) == s0,
            btc_unique(m.btc(addr@) + sel@),
            (m.btc(addr@) + sel@).to_multiset() == (m0.btc(addr@) + s0).to_multiset(),
            value_sum(s0) >= target ==> sel@ == s0 && m.btc(addr@) == m0.btc(addr@),
            sel@.len() > s0.len() ==> value_sum(sel@.drop_last()) < target,
            forall|x: int, k: int|
                0 <= x < m.btc(addr@).len() && s0.len() <= k < sel@.len() ==> !btc_before(
                    #[trigger] m.btc(addr@)[x],
                    #[trigger] sel@[k],
                ),
        ensures
            *total >= target || m.btc(addr@).len() == 0,
        decreases m.btc(addr@).len(),
    {
        let ghost r = m.btc(addr@);
        let ghost before_sel = sel@;
        let ghost mprev = *m;
        match m.get_bitcoin_utxo(addr) {
            None => {
                break;
            },
            Some(u) => {
                proof {
                    let i = choose|i: int|
                        is_btc_min(r, i) && Some(u) == Some(r[i]) && m.btc(addr@) == r.remove(i);
                    lemma_unique_take(r, before_sel, i);
                    assert forall|x: int, k: int|
                        0 <= x < m.btc(addr@).len() && s0.len() <= k < before_sel.len() + 1 implies !btc_before(
                        #[trigger] m.btc(addr@)[x],
                        #[trigger] before_sel.push(u)[k],
                    ) by {
                        let xi = if x < i { x } else { x + 1 };
                        assert(m.btc(addr@)[x] == r[xi]);
                        if k < before_sel.len() {
                            assert(before_sel.push(u)[k] == before_sel[k]);
                        }
                    }
                    assert(before_sel.push(u).drop_last() == before_sel);
                    assert(before_sel.push(u).subrange(0, s0.len() as int) =~= before_sel.subrange(0, s0.len() as int));
                    lemma_value_sum_nonneg(before_sel);
                    assert(mprev.btc_frame(m, addr@));
                }
                sel.push(u);
                *total = *total + u.value as u128;
            },
        }
    }
}

/// Moves least-balance outputs of `addr` under `runeid` from the index into
/// `sel` until `total` reaches `target` or none is left; `sats` sums their
/// satoshi values.
pub fn select_runic(
    m: &mut UtxoManager,
    addr: &str,
    runeid: RuneId,
    target: u128,
    sel: &mut Vec<RunicUtxo>,
    total: &mut u128,
    sats: &mut u128,
)
    requires
        old(m).wf(),
        old(sel)@.len() == 0,
        *old(total) == 0,
        *old(sats) == 0,
    ensures
        final(m).wf(),
        old(m).runic_frame(final(m), addr@, runeid),
        *final(total) == sat128(balance_sum(final(sel)@)),
        *final(sats) == sat128(runic_value_sum(final(sel)@)),
        runic_unique(final(m).runic(addr@, runeid) + final(sel)@),
        (final(m).runic(addr@, runeid) + final(sel)@).to_multiset() == old(m).runic(
            addr@,
            runeid,
        ).to_multiset(),
        *final(total) >= target || final(m).runic(addr@, runeid).len() == 0,
        final(sel)@.len() > 0 ==> balance_sum(final(sel)@.drop_last()) < target,
        forall|x: int, k: int|
            0 <= x < final(m).runic(addr@, runeid).len() && 0 <= k < final(sel)@.len()
                ==> !runic_before(#[trigger] final(m).runic(addr@, runeid)[x], #[trigger] final(sel)@[k]),
{
    let ghost m0 = *m;
    proof {
        assert(m.runic(addr@, runeid) + sel@ =~= m.runic(addr@, runeid));
    }
    while *total < target
        invariant
            m.wf(),
            m0.runic_frame(m, addr@, runeid),
            *total == sat128(balance_sum(sel@)),
            *sats == sat128(runic_value_sum(sel@)),
            runic_unique(m.runic(addr@, runeid) + sel@),
            (m.runic(addr@, runeid) + sel@).to_multiset() == m0.runic(addr@, runeid).to_multiset(),
            sel@.len() > 0 ==> balance_sum(sel@.drop_last()) < target,
            forall|x: int, k: int|
                0 <= x < m.runic(addr@, runeid).len() && 0 <= k < sel@.len() ==> !runic_before(
                    #[trigger] m.runic(addr@, runeid)[x],
                    #[trigger] sel@[k],
                ),
        ensures
            *total >= target || m.runic(addr@, runeid).len() == 0,
        decreases m.runic(addr@, runeid).len(),
    {
        let ghost r = m.runic(addr@, runeid);
        let ghost before_sel = sel@;
        let ghost mprev = *m;
        match m.get_runic_utxo(addr, runeid) {
            None => {
                break;
            },
            Some(u) => {
                proof {
                    let i = choose|i: int|
                        is_runic_min(r, i) && Some(u) == Some(r[i]) && m.runic(addr@, runeid)
                            == r.remove(i);
                    lemma_runic_unique_take(r, before_sel, i);
                    assert forall|x: int, k: int|
                        0 <= x < m.runic(addr@, runeid).len() && 0 <= k < before_sel.len() + 1 implies !runic_before(
                        #[trigger] m.runic(addr@, runeid)[x],
                        #[trigger] before_sel.push(u)[k],
                    ) by {
                        let xi = if x < i { x } else { x + 1 };
                        assert(m.runic(addr@, runeid)[x] == r[xi]);
                        if k < before_sel.len() {
                            assert(before_sel.push(u)[k] == before_sel[k]);
                        }
                    }
                    assert(before_sel.push(u).drop_last() == before_sel);
                    lemma_runic_sums_nonneg(before_sel);
                }
                sel.push(u);
                if *total > u128::MAX - u.balance {
                    *total = u128::MAX;
                } else {
                    *total = *total + u.balance;
                }
                if *sats > u128::MAX - u.utxo.value as u128 {
                    *sats = u128::MAX;
                } else {
                    *sats = *sats + u.utxo.value as u128;
                }
            },
        }
    }
}


/// Taking the first output of a set and recording it again leaves the
/// balance of the set as it was.
pub proof fn lemma_take_and_return_keeps_balance(s: Seq<Utxo>, i: int)
    requires
        btc_unique(s),
        is_btc_min(s, i),
    ensures
        value_sum(btc_record(s.remove(i), seq![s[i]])) == value_sum(s),
        btc_record(s.remove(i), seq![s[i]]).to_multiset() == s.to_multiset(),
{
    assert(s + Seq::<Utxo>::empty() =~= s);
    lemma_unique_take(s, Seq::<Utxo>::empty(), i);
    assert(Seq::<Utxo>::empty().push(s[i]) =~= seq![s[i]]);
    lemma_record_disjoint(s.remove(i), seq![s[i]]);
    assert(s.remove(i) + seq![s[i]] =~= s.remove(i).push(s[i]));
    assert(s.remove(i).push(s[i]).drop_last() =~= s.remove(i));
    crate::utxo_set::lemma_value_sum_remove(s, i);
}

/// Taking the first runic output of a set and recording it again leaves
/// the rune balance and the satoshi value of the set as they were.
pub proof fn lemma_take_and_return_keeps_rune_balance(s: Seq<RunicUtxo>, i: int)
    requires
        runic_unique(s),
        is_runic_min(s, i),
    ensures
        balance_sum(runic_record(s.remove(i), seq![s[i]])) == balance_sum(s),
        runic_value_sum(runic_record(s.remove(i), seq![s[i]])) == runic_value_sum(s),
        runic_record(s.remove(i), seq![s[i]]).to_multiset() == s.to_multiset(),
{
    assert(s + Seq::<RunicUtxo>::empty() =~= s);
    lemma_runic_unique_take(s, Seq::<RunicUtxo>::empty(), i);
    assert(Seq::<RunicUtxo>::empty().push(s[i]) =~= seq![s[i]]);
    lemma_runic_record_disjoint(s.remove(i), seq![s[i]]);
    assert(s.remove(i) + seq![s[i]] =~= s.remove(i).push(s[i]));
    assert(s.remove(i).push(s[i]).drop_last() =~= s.remove(i));
    crate::utxo_set::lemma_balance_sum_remove(s, i);
    assert(s.remove(i).push(s[i]).to_multiset() == s.remove(i).to_multiset().insert(s[i]));
    assert(s.remove(i).to_multiset() == s.to_multiset().remove(s[i]));
    assert(s.to_multiset().count(s[i]) > 0);
    assert(s.remove(i).to_multiset().insert(s[i]) =~= s.to_multiset());
}

/// Two successive takes from a plain set return non-decreasing values.
pub proof fn lemma_selection_non_decreasing(s: Seq<Utxo>, i: int, j: int)
    requires
        is_btc_min(s, i),
        is_btc_min(s.remove(i), j),
    ensures
        s[i].value <= s.remove(i)[j].value,
{
    let k = if j < i { j } else { j + 1 };
    assert(s.remove(i)[j] == s[k]);
    assert(!btc_before(s[k], s[i]));
}


/// Recording two batches of distinct outputs in either order gives the same
/// outputs and the same balance.
pub proof fn lemma_record_order_irrelevant(s: Seq<Utxo>, xs: Seq<Utxo>, ys: Seq<Utxo>)
    requires
        btc_unique(s + xs + ys),
        btc_unique(s + ys + xs),
    ensures
        btc_record(btc_record(s, xs), ys).to_multiset() == btc_record(btc_record(s, ys), xs).to_multiset(),
        value_sum(btc_record(btc_record(s, xs), ys)) == value_sum(btc_record(btc_record(s, ys), xs)),
{
    lemma_unique_prefix(s + xs, ys);
    lemma_unique_prefix(s + ys, xs);
    lemma_record_disjoint(s, xs);
    lemma_record_disjoint(s + xs, ys);
    lemma_record_disjoint(s, ys);
    lemma_record_disjoint(s + ys, xs);
    assert((s + xs + ys).to_multiset() =~= (s + ys + xs).to_multiset()) by {
        vstd::seq_lib::lemma_multiset_commutative(s + xs, ys);
        vstd::seq_lib::lemma_multiset_commutative(s, xs);
        vstd::seq_lib::lemma_multiset_commutative(s + ys, xs);
        vstd::seq_lib::lemma_multiset_commutative(s, ys);
    }
    crate::composer::lemma_value_sum_multiset(s + xs + ys, s + ys + xs);
}

proof fn lemma_unique_prefix(a: Seq<Utxo>, b: Seq<Utxo>)
    requires
        btc_unique(a + b),
    ensures
        btc_unique(a),
{
    assert forall|i: int, j: int| 0 <= i < j < a.len() implies !same_outpoint(
        #[trigger] a[i].outpoint,
        #[trigger] a[j].outpoint,
    ) by {
        assert((a + b)[i] == a[i] && (a + b)[j] == a[j]);
    }
}


proof fn lemma_takes_shrink(ss: Seq<Seq<Utxo>>, idx: Seq<int>, j: int, k: int)
    requires
        ss.len() == idx.len() + 1,
        forall|t: int| 0 <= t < idx.len() ==> is_btc_min(#[trigger] ss[t], idx[t]) && ss[t + 1] == ss[t].remove(idx[t]),
        0 <= j <= k < ss.len(),
    ensures
        forall|x: int| 0 <= x < ss[k].len() ==> ss[j].contains(#[trigger] ss[k][x]),
    decreases k - j,
{
    if j < k {
        lemma_takes_shrink(ss, idx, j + 1, k);
        assert(is_btc_min(ss[j], idx[j]) && ss[j + 1] == ss[j].remove(idx[j]));
        assert forall|x: int| 0 <= x < ss[k].len() implies ss[j].contains(#[trigger] ss[k][x]) by {
            let y = ss[k][x];
            assert(ss[j + 1].contains(y));
            let nxt = ss[j + 1];
            let p = choose|p: int| 0 <= p < nxt.len() && #[trigger] nxt[p] == y;
            let q = if p < idx[j] { p } else { p + 1 };
            assert(ss[j][q] == y);
        }
    } else {
        assert forall|x: int| 0 <= x < ss[k].len() implies ss[j].contains(#[trigger] ss[k][x]) by {
            assert(ss[j][x] == ss[k][x]);
        }
    }
}

/// Any number of successive takes from a plain set return non-decreasing
/// values: `ss[t]` is the set before take `t`, which removes `idx[t]`.
pub proof fn lemma_takes_non_decreasing(ss: Seq<Seq<Utxo>>, idx: Seq<int>)
    requires
        ss.len() == idx.len() + 1,
        forall|t: int| 0 <= t < idx.len() ==> is_btc_min(#[trigger] ss[t], idx[t]) && ss[t + 1] == ss[t].remove(idx[t]),
    ensures
        forall|j: int, k: int|
            0 <= j <= k < idx.len() ==> (#[trigger] ss[j][idx[j]]).value <= (#[trigger] ss[k][idx[k]]).value,
{
    assert forall|j: int, k: int| 0 <= j <= k < idx.len() implies (#[trigger] ss[j][idx[j]]).value <= (
    #[trigger] ss[k][idx[k]]).value by {
        assert(is_btc_min(ss[k], idx[k]));
        lemma_takes_shrink(ss, idx, j, k);
        let y = ss[k][idx[k]];
        assert(ss[j].contains(y));
        let cur = ss[j];
        let p = choose|p: int| 0 <= p < cur.len() && #[trigger] cur[p] == y;
        assert(is_btc_min(ss[j], idx[j]));
        assert(!btc_before(ss[j][p], ss[j][idx[j]]));
    }
}

} // verus!
