//! The per-address index of plain and runic outputs.

use vstd::prelude::*;

use crate::types::{RuneId, RunicUtxo, Utxo};
use crate::utxo_set::{
    btc_record, btc_unique, contains_runic, has_outpoint, is_btc_min, is_runic_min, record_btc,
    record_runic, remove_btc, runic_has_outpoint, runic_record, runic_unique, same_outpoint,
    take_min_btc, take_min_runic, total_balance, total_value, balance_sum, value_sum,
};

verus! {

/// The plain bitcoin outputs recorded for one address.
pub struct BitcoinUtxos {
    pub address: String,
    pub utxos: Vec<Utxo>,
}

/// The outputs of one address that carry one rune.
pub struct RunicUtxoMap {
    pub address: String,
    pub runeid: RuneId,
    pub utxos: Vec<RunicUtxo>,
}

/// Index of spendable outputs per address, split into plain bitcoin and
/// per-rune sets.
pub struct UtxoManager {
    pub btc_sets: Vec<BitcoinUtxos>,
    pub rune_sets: Vec<RunicUtxoMap>,
}

impl UtxoManager {
    pub open spec fn has_btc_set(&self, a: Seq<char>) -> bool {
        exists|i: int| 0 <= i < self.btc_sets@.len() && (#[trigger] self.btc_sets@[i]).address@ == a
    }

    pub open spec fn btc_index(&self, a: Seq<char>) -> int {
        choose|i: int| 0 <= i < self.btc_sets@.len() && (#[trigger] self.btc_sets@[i]).address@ == a
    }

    /// The plain bitcoin outputs recorded for address `a`.
    pub open spec fn btc(&self, a: Seq<char>) -> Seq<Utxo> {
        if self.has_btc_set(a) {
            self.btc_sets@[self.btc_index(a)].utxos@
        } else {
            Seq::empty()
        }
    }

    pub open spec fn has_rune_set(&self, a: Seq<char>, r: RuneId) -> bool {
        exists|i: int|
            0 <= i < self.rune_sets@.len() && (#[trigger] self.rune_sets@[i]).address@ == a
                && self.rune_sets@[i].runeid == r
    }

    pub open spec fn rune_index(&self, a: Seq<char>, r: RuneId) -> int {
        choose|i: int|
            0 <= i < self.rune_sets@.len() && (#[trigger] self.rune_sets@[i]).address@ == a
                && self.rune_sets@[i].runeid == r
    }

    /// The outputs of address `a` recorded under rune `r`.
    pub open spec fn runic(&self, a: Seq<char>, r: RuneId) -> Seq<RunicUtxo> {
        if self.has_rune_set(a, r) {
            self.rune_sets@[self.rune_index(a, r)].utxos@
        } else {
            Seq::empty()
        }
    }

    /// Whether an output with outpoint `o` is recorded under some rune of `a`.
    pub open spec fn is_runic(&self, a: Seq<char>, u: Utxo) -> bool {
        exists|r: RuneId| runic_has_outpoint(#[trigger] self.runic(a, r), u.outpoint)
    }

    /// No output of `a` is both plain and runic.
    pub open spec fn partitioned(&self, a: Seq<char>) -> bool {
        forall|k: int|
            0 <= k < self.btc(a).len() ==> !self.is_runic(a, #[trigger] self.btc(a)[k])
    }

    pub open spec fn wf(&self) -> bool {
        &&& forall|i: int, j: int|
            0 <= i < j < self.btc_sets@.len() ==> (#[trigger] self.btc_sets@[i]).address@
                != (#[trigger] self.btc_sets@[j]).address@
        &&& forall|i: int|
            0 <= i < self.btc_sets@.len() ==> btc_unique((#[trigger] self.btc_sets@[i]).utxos@)
        &&& forall|i: int, j: int|
            0 <= i < j < self.rune_sets@.len() ==> !((#[trigger] self.rune_sets@[i]).address@
                == (#[trigger] self.rune_sets@[j]).address@ && self.rune_sets@[i].runeid
                == self.rune_sets@[j].runeid)
        &&& forall|i: int|
            0 <= i < self.rune_sets@.len() ==> runic_unique((#[trigger] self.rune_sets@[i]).utxos@)
    }

    /// Every address other than `a` keeps its plain outputs, and every
    /// runic set is kept.
    pub open spec fn btc_frame(&self, other: &UtxoManager, a: Seq<char>) -> bool {
        &&& forall|b: Seq<char>| b != a ==> #[trigger] other.btc(b) == self.btc(b)
        &&& forall|b: Seq<char>, r: RuneId| #[trigger] other.runic(b, r) == self.runic(b, r)
    }

    /// Every plain set is kept, and every runic set but `(a, r)`.
    pub open spec fn runic_frame(&self, other: &UtxoManager, a: Seq<char>, r: RuneId) -> bool {
        &&& forall|b: Seq<char>| #[trigger] other.btc(b) == self.btc(b)
        &&& forall|b: Seq<char>, q: RuneId|
            !(b == a && q == r) ==> #[trigger] other.runic(b, q) == self.runic(b, q)
    }
}

/// Frames compose.
pub proof fn lemma_btc_frame_trans(a: &UtxoManager, b: &UtxoManager, c: &UtxoManager, addr: Seq<char>)
    requires
        a.btc_frame(b, addr),
        b.btc_frame(c, addr),
    ensures
        a.btc_frame(c, addr),
{
    assert forall|x: Seq<char>| x != addr implies #[trigger] c.btc(x) == a.btc(x) by {
        assert(b.btc(x) == a.btc(x));
    }
    assert forall|x: Seq<char>, r: RuneId| #[trigger] c.runic(x, r) == a.runic(x, r) by {
        assert(b.runic(x, r) == a.runic(x, r));
    }
}

proof fn lemma_btc_index(m: &UtxoManager, j: int)
    requires
        m.wf(),
        0 <= j < m.btc_sets@.len(),
    ensures
        m.has_btc_set(m.btc_sets@[j].address@),
        m.btc_index(m.btc_sets@[j].address@) == j,
        m.btc(m.btc_sets@[j].address@) == m.btc_sets@[j].utxos@,
{
    let a = m.btc_sets@[j].address@;
    assert(m.has_btc_set(a));
    let k = m.btc_index(a);
    if k != j {
        if k < j {
            assert(m.btc_sets@[k].address@ != m.btc_sets@[j].address@);
        } else {
            assert(m.btc_sets@[j].address@ != m.btc_sets@[k].address@);
        }
    }
}

proof fn lemma_rune_index(m: &UtxoManager, j: int)
    requires
        m.wf(),
        0 <= j < m.rune_sets@.len(),
    ensures
        m.has_rune_set(m.rune_sets@[j].address@, m.rune_sets@[j].runeid),
        m.rune_index(m.rune_sets@[j].address@, m.rune_sets@[j].runeid) == j,
        m.runic(m.rune_sets@[j].address@, m.rune_sets@[j].runeid) == m.rune_sets@[j].utxos@,
{
    let a = m.rune_sets@[j].address@;
    let r = m.rune_sets@[j].runeid;
    assert(m.has_rune_set(a, r));
    let k = m.rune_index(a, r);
    if k != j {
        if k < j {
            assert(!(m.rune_sets@[k].address@ == m.rune_sets@[j].address@
                && m.rune_sets@[k].runeid == m.rune_sets@[j].runeid));
        } else {
            assert(!(m.rune_sets@[j].address@ == m.rune_sets@[k].address@
                && m.rune_sets@[j].runeid == m.rune_sets@[k].runeid));
        }
    }
}

/// Replacing the plain set at `i` changes only the view of its address.
proof fn lemma_btc_replace(m: &UtxoManager, m2: &UtxoManager, i: int)
    requires
        m.wf(),
        0 <= i < m.btc_sets@.len(),
        m2.btc_sets@.len() == m.btc_sets@.len(),
        forall|k: int| 0 <= k < m.btc_sets@.len() && k != i ==> m2.btc_sets@[k] == m.btc_sets@[k],
        m2.btc_sets@[i].address@ == m.btc_sets@[i].address@,
        btc_unique(m2.btc_sets@[i].utxos@),
        m2.rune_sets == m.rune_sets,
    ensures
        m2.wf(),
        m2.btc(m.btc_sets@[i].address@) == m2.btc_sets@[i].utxos@,
        m.btc_frame(m2, m.btc_sets@[i].address@),
{
    let a = m.btc_sets@[i].address@;
    assert forall|x: int, y: int| 0 <= x < y < m2.btc_sets@.len() implies (#[trigger] m2.btc_sets@[x]).address@
        != (#[trigger] m2.btc_sets@[y]).address@ by {
        assert(m.btc_sets@[x].address@ != m.btc_sets@[y].address@);
    }
    assert forall|x: int| 0 <= x < m2.btc_sets@.len() implies btc_unique((#[trigger] m2.btc_sets@[x]).utxos@) by {
        if x != i {
            assert(btc_unique(m.btc_sets@[x].utxos@));
        }
    }
    lemma_btc_index(m2, i);
    assert forall|b: Seq<char>| b != a implies #[trigger] m2.btc(b) == m.btc(b) by {
        if m.has_btc_set(b) {
            let k = m.btc_index(b);
            lemma_btc_index(m, k);
            lemma_btc_index(m2, k);
        } else if m2.has_btc_set(b) {
            let k = m2.btc_index(b);
            assert(m.btc_sets@[k].address@ == b);
        }
    }
    assert forall|b: Seq<char>, r: RuneId| #[trigger] m2.runic(b, r) == m.runic(b, r) by {}
}

/// Replacing the runic set at `i` changes only the view of its key.
proof fn lemma_rune_replace(m: &UtxoManager, m2: &UtxoManager, i: int)
    requires
        m.wf(),
        0 <= i < m.rune_sets@.len(),
        m2.rune_sets@.len() == m.rune_sets@.len(),
        forall|k: int| 0 <= k < m.rune_sets@.len() && k != i ==> m2.rune_sets@[k] == m.rune_sets@[k],
        m2.rune_sets@[i].address@ == m.rune_sets@[i].address@,
        m2.rune_sets@[i].runeid == m.rune_sets@[i].runeid,
        runic_unique(m2.rune_sets@[i].utxos@),
        m2.btc_sets == m.btc_sets,
    ensures
        m2.wf(),
        m2.runic(m.rune_sets@[i].address@, m.rune_sets@[i].runeid) == m2.rune_sets@[i].utxos@,
        m.runic_frame(m2, m.rune_sets@[i].address@, m.rune_sets@[i].runeid),
{
    let a = m.rune_sets@[i].address@;
    let r = m.rune_sets@[i].runeid;
    assert forall|x: int, y: int| 0 <= x < y < m2.rune_sets@.len() implies !((#[trigger] m2.rune_sets@[x]).address@
        == (#[trigger] m2.rune_sets@[y]).address@ && m2.rune_sets@[x].runeid
        == m2.rune_sets@[y].runeid) by {
        assert(!(m.rune_sets@[x].address@ == m.rune_sets@[y].address@
            && m.rune_sets@[x].runeid == m.rune_sets@[y].runeid));
    }
    assert forall|x: int| 0 <= x < m2.rune_sets@.len() implies runic_unique((#[trigger] m2.rune_sets@[x]).utxos@) by {
        if x != i {
            assert(runic_unique(m.rune_sets@[x].utxos@));
        }
    }
    lemma_rune_index(m2, i);
    assert forall|b: Seq<char>, q: RuneId| !(b == a && q == r) implies #[trigger] m2.runic(b, q)
        == m.runic(b, q) by {
        if m.has_rune_set(b, q) {
            let k = m.rune_index(b, q);
            lemma_rune_index(m, k);
            lemma_rune_index(m2, k);
        } else if m2.has_rune_set(b, q) {
            let k = m2.rune_index(b, q);
            assert(m.rune_sets@[k].address@ == b && m.rune_sets@[k].runeid == q);
        }
    }
    assert forall|b: Seq<char>| #[trigger] m2.btc(b) == m.btc(b) by {}
}


proof fn lemma_btc_push(m: &UtxoManager, m2: &UtxoManager)
    requires
        m.wf(),
        m2.btc_sets@.len() == m.btc_sets@.len() + 1,
        forall|k: int| 0 <= k < m.btc_sets@.len() ==> m2.btc_sets@[k] == m.btc_sets@[k],
        !m.has_btc_set(m2.btc_sets@.last().address@),
        m2.btc_sets@.last().utxos@.len() == 0,
        m2.rune_sets == m.rune_sets,
    ensures
        m2.wf(),
        forall|b: Seq<char>| #[trigger] m2.btc(b) == m.btc(b),
        forall|b: Seq<char>, r: RuneId| #[trigger] m2.runic(b, r) == m.runic(b, r),
{
    let n = m.btc_sets@.len() as int;
    let a = m2.btc_sets@[n].address@;
    assert forall|x: int, y: int| 0 <= x < y < m2.btc_sets@.len() implies (#[trigger] m2.btc_sets@[x]).address@
        != (#[trigger] m2.btc_sets@[y]).address@ by {
        if y < n {
            assert(m.btc_sets@[x].address@ != m.btc_sets@[y].address@);
        } else {
            assert(m.btc_sets@[x] == m2.btc_sets@[x]);
        }
    }
    assert forall|x: int| 0 <= x < m2.btc_sets@.len() implies btc_unique((#[trigger] m2.btc_sets@[x]).utxos@) by {
        if x < n {
            assert(btc_unique(m.btc_sets@[x].utxos@));
        }
    }
    assert forall|b: Seq<char>| #[trigger] m2.btc(b) == m.btc(b) by {
        if m.has_btc_set(b) {
            let k = m.btc_index(b);
            lemma_btc_index(m, k);
            lemma_btc_index(m2, k);
        } else if m2.has_btc_set(b) {
            let k = m2.btc_index(b);
            lemma_btc_index(m2, k);
            if k < n {
                assert(m.btc_sets@[k].address@ == b);
            }
            assert(m2.btc(b) =~= Seq::<Utxo>::empty());
        }
    }
}

proof fn lemma_rune_push(m: &UtxoManager, m2: &UtxoManager)
    requires
        m.wf(),
        m2.rune_sets@.len() == m.rune_sets@.len() + 1,
        forall|k: int| 0 <= k < m.rune_sets@.len() ==> m2.rune_sets@[k] == m.rune_sets@[k],
        !m.has_rune_set(m2.rune_sets@.last().address@, m2.rune_sets@.last().runeid),
        m2.rune_sets@.last().utxos@.len() == 0,
        m2.btc_sets == m.btc_sets,
    ensures
        m2.wf(),
        forall|b: Seq<char>| #[trigger] m2.btc(b) == m.btc(b),
        forall|b: Seq<char>, r: RuneId| #[trigger] m2.runic(b, r) == m.runic(b, r),
{
    let n = m.rune_sets@.len() as int;
    assert forall|x: int, y: int| 0 <= x < y < m2.rune_sets@.len() implies !((#[trigger] m2.rune_sets@[x]).address@
        == (#[trigger] m2.rune_sets@[y]).address@ && m2.rune_sets@[x].runeid
        == m2.rune_sets@[y].runeid) by {
        if y < n {
            assert(!(m.rune_sets@[x].address@ == m.rune_sets@[y].address@
                && m.rune_sets@[x].runeid == m.rune_sets@[y].runeid));
        } else {
            assert(m.rune_sets@[x] == m2.rune_sets@[x]);
        }
    }
    assert forall|x: int| 0 <= x < m2.rune_sets@.len() implies runic_unique((#[trigger] m2.rune_sets@[x]).utxos@) by {
        if x < n {
            assert(runic_unique(m.rune_sets@[x].utxos@));
        }
    }
    assert forall|b: Seq<char>, r: RuneId| #[trigger] m2.runic(b, r) == m.runic(b, r) by {
        if m.has_rune_set(b, r) {
            let k = m.rune_index(b, r);
            lemma_rune_index(m, k);
            lemma_rune_index(m2, k);
        } else if m2.has_rune_set(b, r) {
            let k = m2.rune_index(b, r);
            lemma_rune_index(m2, k);
            if k < n {
                assert(m.rune_sets@[k].address@ == b && m.rune_sets@[k].runeid == r);
            }
            assert(m2.runic(b, r) =~= Seq::<RunicUtxo>::empty());
        }
    }
}

impl UtxoManager {
    /// An index with nothing recorded.
    pub fn new() -> (r: UtxoManager)
        ensures
            r.wf(),
            forall|a: Seq<char>| #[trigger] r.btc(a) == Seq::<Utxo>::empty(),
            forall|a: Seq<char>, q: RuneId| #[trigger] r.runic(a, q) == Seq::<RunicUtxo>::empty(),
            forall|a: Seq<char>| #[trigger] r.partitioned(a),
    {
        UtxoManager { btc_sets: Vec::new(), rune_sets: Vec::new() }
    }

    fn find_btc_set(&self, addr: &String) -> (r: Option<usize>)
        requires
            self.wf(),
        ensures
            match r {
                Some(i) => i < self.btc_sets@.len() && self.btc_sets@[i as int].address@ == addr@
                    && self.btc(addr@) == self.btc_sets@[i as int].utxos@,
                None => !self.has_btc_set(addr@) && self.btc(addr@) == Seq::<Utxo>::empty(),
            },
    {
        let mut i: usize = 0;
        while i < self.btc_sets.len()
            invariant
                self.wf(),
                i <= self.btc_sets@.len(),
                forall|k: int| 0 <= k < i ==> (#[trigger] self.btc_sets@[k]).address@ != addr@,
            decreases self.btc_sets@.len() - i,
        {
            if self.btc_sets[i].address == *addr {
                proof {
                    lemma_btc_index(self, i as int);
                }
                return Some(i);
            }
            i = i + 1;
        }
        None
    }

    fn find_rune_set(&self, addr: &String, runeid: RuneId) -> (r: Option<usize>)
        requires
            self.wf(),
        ensures
            match r {
                Some(i) => i < self.rune_sets@.len() && self.rune_sets@[i as int].address@ == addr@
                    && self.rune_sets@[i as int].runeid == runeid && self.runic(addr@, runeid)
                    == self.rune_sets@[i as int].utxos@,
                None => !self.has_rune_set(addr@, runeid) && self.runic(addr@, runeid) == Seq::<
                    RunicUtxo,
                >::empty(),
            },
    {
        let mut i: usize = 0;
        while i < self.rune_sets.len()
            invariant
                self.wf(),
                i <= self.rune_sets@.len(),
                forall|k: int|
                    0 <= k < i ==> !((#[trigger] self.rune_sets@[k]).address@ == addr@
                        && self.rune_sets@[k].runeid == runeid),
            decreases self.rune_sets@.len() - i,
        {
            if self.rune_sets[i].runeid == runeid && self.rune_sets[i].address == *addr {
                proof {
                    lemma_rune_index(self, i as int);
                }
                return Some(i);
            }
            i = i + 1;
        }
        None
    }

    /// Position of the plain set of `addr`, created empty if missing.
    fn btc_slot(&mut self, addr: &String) -> (i: usize)
        requires
            old(self).wf(),
        ensures
            final(self).wf(),
            i < final(self).btc_sets@.len(),
            final(self).btc_sets@[i as int].address@ == addr@,
            forall|b: Seq<char>| #[trigger] final(self).btc(b) == old(self).btc(b),
            forall|b: Seq<char>, r: RuneId| #[trigger] final(self).runic(b, r) == old(self).runic(b, r),
    {
        match self.find_btc_set(addr) {
            Some(i) => i,
            None => {
                let ghost before = *self;
                self.btc_sets.push(BitcoinUtxos { address: addr.clone(), utxos: Vec::new() });
                proof {
                    lemma_btc_push(&before, self);
                }
                self.btc_sets.len() - 1
            },
        }
    }

    /// Position of the runic set of `(addr, runeid)`, created empty if missing.
    fn rune_slot(&mut self, addr: &String, runeid: RuneId) -> (i: usize)
        requires
            old(self).wf(),
        ensures
            final(self).wf(),
            i < final(self).rune_sets@.len(),
            final(self).rune_sets@[i as int].address@ == addr@,
            final(self).rune_sets@[i as int].runeid == runeid,
            forall|b: Seq<char>| #[trigger] final(self).btc(b) == old(self).btc(b),
            forall|b: Seq<char>, r: RuneId| #[trigger] final(self).runic(b, r) == old(self).runic(b, r),
    {
        match self.find_rune_set(addr, runeid) {
            Some(i) => i,
            None => {
                let ghost before = *self;
                self.rune_sets.push(RunicUtxoMap { address: addr.clone(), runeid, utxos: Vec::new() });
                proof {
                    lemma_rune_push(&before, self);
                }
                self.rune_sets.len() - 1
            },
        }
    }

    /// Adds `utxos` to the plain set of `addr`, skipping outpoints already there.
    pub fn record_btc_utxos(&mut self, addr: &str, utxos: Vec<Utxo>)
        requires
            old(self).wf(),
        ensures
            final(self).wf(),
            final(self).btc(addr@) == btc_record(old(self).btc(addr@), utxos@),
            old(self).btc_frame(final(self), addr@),
    {
        let a = addr.to_owned();
        let i = self.btc_slot(&a);
        let ghost mid = *self;
        proof {
            lemma_btc_index(&mid, i as int);
        }
        let mut e = self.btc_sets.remove(i);
        record_btc(&mut e.utxos, &utxos);
        self.btc_sets.insert(i, e);
        proof {
            lemma_btc_replace(&mid, self, i as int);
        }
    }

    /// Adds `utxos` to the set of `addr` under `runeid`, skipping outpoints
    /// already there.
    pub fn record_runic_utxos(&mut self, addr: &str, runeid: RuneId, utxos: Vec<RunicUtxo>)
        requires
            old(self).wf(),
        ensures
            final(self).wf(),
            final(self).runic(addr@, runeid) == runic_record(old(self).runic(addr@, runeid), utxos@),
            old(self).runic_frame(final(self), addr@, runeid),
    {
        let a = addr.to_owned();
        let i = self.rune_slot(&a, runeid);
        let ghost mid = *self;
        proof {
            lemma_rune_index(&mid, i as int);
        }
        let mut e = self.rune_sets.remove(i);
        record_runic(&mut e.utxos, &utxos);
        self.rune_sets.insert(i, e);
        proof {
            lemma_rune_replace(&mid, self, i as int);
        }
    }

    /// Removes and returns the plain output of `addr` with the least value
    /// (ties broken by outpoint); `None` if there is none.
    pub fn get_bitcoin_utxo(&mut self, addr: &str) -> (r: Option<Utxo>)
        requires
            old(self).wf(),
        ensures
            final(self).wf(),
            old(self).btc_frame(final(self), addr@),
            old(self).btc(addr@).len() == 0 ==> r.is_none() && final(self).btc(addr@) == old(
                self,
            ).btc(addr@),
            old(self).btc(addr@).len() > 0 ==> exists|i: int|
                is_btc_min(old(self).btc(addr@), i) && r == Some(old(self).btc(addr@)[i])
                    && final(self).btc(addr@) == old(self).btc(addr@).remove(i),
    {
        let a = addr.to_owned();
        let i = self.btc_slot(&a);
        let ghost mid = *self;
        proof {
            lemma_btc_index(&mid, i as int);
        }
        let mut e = self.btc_sets.remove(i);
        let r = take_min_btc(&mut e.utxos);
        self.btc_sets.insert(i, e);
        proof {
            lemma_btc_replace(&mid, self, i as int);
        }
        r
    }

    /// Removes and returns the output of `addr` under `runeid` with the least
    /// rune balance (ties broken by outpoint); `None` if there is none.
    pub fn get_runic_utxo(&mut self, addr: &str, runeid: RuneId) -> (r: Option<RunicUtxo>)
        requires
            old(self).wf(),
        ensures
            final(self).wf(),
            old(self).runic_frame(final(self), addr@, runeid),
            old(self).runic(addr@, runeid).len() == 0 ==> r.is_none() && final(self).runic(
                addr@,
                runeid,
            ) == old(self).runic(addr@, runeid),
            old(self).runic(addr@, runeid).len() > 0 ==> exists|i: int|
                is_runic_min(old(self).runic(addr@, runeid), i) && r == Some(
                    old(self).runic(addr@, runeid)[i],
                ) && final(self).runic(addr@, runeid) == old(self).runic(addr@, runeid).remove(i),
    {
        let a = addr.to_owned();
        let i = self.rune_slot(&a, runeid);
        let ghost mid = *self;
        proof {
            lemma_rune_index(&mid, i as int);
        }
        let mut e = self.rune_sets.remove(i);
        let r = take_min_runic(&mut e.utxos);
        self.rune_sets.insert(i, e);
        proof {
            lemma_rune_replace(&mid, self, i as int);
        }
        r
    }

    /// Removes the plain output of `addr` with the outpoint of `utxo`, if any.
    pub fn remove_btc_utxo(&mut self, addr: &str, utxo: &Utxo)
        requires
            old(self).wf(),
        ensures
            final(self).wf(),
            old(self).btc_frame(final(self), addr@),
            !has_outpoint(final(self).btc(addr@), utxo.outpoint),
            !has_outpoint(old(self).btc(addr@), utxo.outpoint) ==> final(self).btc(addr@) == old(
                self,
            ).btc(addr@),
            has_outpoint(old(self).btc(addr@), utxo.outpoint) ==> exists|i: int|
                0 <= i < old(self).btc(addr@).len() && same_outpoint(
                    old(self).btc(addr@)[i].outpoint,
                    utxo.outpoint,
                ) && final(self).btc(addr@) == old(self).btc(addr@).remove(i),
    {
        let a = addr.to_owned();
        let i = self.btc_slot(&a);
        let ghost mid = *self;
        proof {
            lemma_btc_index(&mid, i as int);
        }
        let mut e = self.btc_sets.remove(i);
        remove_btc(&mut e.utxos, &utxo.outpoint);
        self.btc_sets.insert(i, e);
        proof {
            lemma_btc_replace(&mid, self, i as int);
        }
    }

    /// Number of plain outputs recorded for `addr`.
    pub fn btc_count(&self, addr: &str) -> (r: usize)
        requires
            self.wf(),
        ensures
            r == self.btc(addr@).len(),
    {
        let a = addr.to_owned();
        match self.find_btc_set(&a) {
            Some(i) => self.btc_sets[i].utxos.len(),
            None => 0,
        }
    }

    /// Number of outputs recorded for `addr` under `runeid`.
    pub fn runic_count(&self, addr: &str, runeid: RuneId) -> (r: usize)
        requires
            self.wf(),
        ensures
            r == self.runic(addr@, runeid).len(),
    {
        let a = addr.to_owned();
        match self.find_rune_set(&a, runeid) {
            Some(i) => self.rune_sets[i].utxos.len(),
            None => 0,
        }
    }

    /// Total value of the plain outputs of `addr`, saturating at `u64::MAX`.
    pub fn get_bitcoin_balance(&self, addr: &str) -> (r: u64)
        requires
            self.wf(),
        ensures
            r == if value_sum(self.btc(addr@)) <= u64::MAX {
                value_sum(self.btc(addr@))
            } else {
                u64::MAX as int
            },
    {
        let a = addr.to_owned();
        match self.find_btc_set(&a) {
            Some(i) => total_value(&self.btc_sets[i].utxos),
            None => 0,
        }
    }

    /// Total balance of `runeid` held by `addr`, saturating at `u128::MAX`.
    pub fn get_runestone_balance(&self, addr: &str, runeid: &RuneId) -> (r: u128)
        requires
            self.wf(),
        ensures
            r == if balance_sum(self.runic(addr@, *runeid)) <= u128::MAX {
                balance_sum(self.runic(addr@, *runeid))
            } else {
                u128::MAX as int
            },
    {
        let a = addr.to_owned();
        match self.find_rune_set(&a, *runeid) {
            Some(i) => total_balance(&self.rune_sets[i].utxos),
            None => 0,
        }
    }

    /// Whether the outpoint of `utxo` is recorded under some rune of `addr`.
    pub fn is_recorded_as_runic(&self, addr: &str, utxo: &Utxo) -> (r: bool)
        requires
            self.wf(),
        ensures
            r == self.is_runic(addr@, *utxo),
    {
        let a = addr.to_owned();
        let mut i: usize = 0;
        while i < self.rune_sets.len()
            invariant
                self.wf(),
                a@ == addr@,
                i <= self.rune_sets@.len(),
                forall|k: int|
                    0 <= k < i && (#[trigger] self.rune_sets@[k]).address@ == a@ ==> !runic_has_outpoint(
                        self.rune_sets@[k].utxos@,
                        utxo.outpoint,
                    ),
            decreases self.rune_sets@.len() - i,
        {
            if self.rune_sets[i].address == a && contains_runic(
                &self.rune_sets[i].utxos,
                &utxo.outpoint,
            ) {
                proof {
                    lemma_rune_index(self, i as int);
                    let q = self.rune_sets@[i as int].runeid;
                    assert(runic_has_outpoint(self.runic(addr@, q), utxo.outpoint));
                    assert(self.is_runic(addr@, *utxo));
                }
                return true;
            }
            i = i + 1;
        }
        proof {
            assert forall|q: RuneId| !runic_has_outpoint(#[trigger] self.runic(a@, q), utxo.outpoint) by {
                if self.has_rune_set(a@, q) {
                    let k = self.rune_index(a@, q);
                    lemma_rune_index(self, k);
                }
            }
        }
        false
    }

    /// Each rune with a set recorded for `addr`, with its total balance
    /// (saturating at `u128::MAX`).
    pub fn all_rune_with_balances(&self, addr: &str) -> (r: Vec<(RuneId, u128)>)
        requires
            self.wf(),
        ensures
            forall|q: RuneId| self.has_rune_set(addr@, q) <==> #[trigger] listed(r@, q),
            forall|k: int|
                0 <= k < r@.len() ==> (#[trigger] r@[k]).1 == if balance_sum(self.runic(addr@, r@[k].0))
                    <= u128::MAX {
                    balance_sum(self.runic(addr@, r@[k].0))
                } else {
                    u128::MAX as int
                },
    {
        let a = addr.to_owned();
        let mut out: Vec<(RuneId, u128)> = Vec::new();
        let mut i: usize = 0;
        while i < self.rune_sets.len()
            invariant
                self.wf(),
                a@ == addr@,
                i <= self.rune_sets@.len(),
                forall|q: RuneId| #[trigger] self.seen(a@, i as int, q) <==> listed(out@, q),
                forall|k: int|
                    0 <= k < out@.len() ==> (#[trigger] out@[k]).1 == if balance_sum(
                        self.runic(a@, out@[k].0),
                    ) <= u128::MAX {
                        balance_sum(self.runic(a@, out@[k].0))
                    } else {
                        u128::MAX as int
                    },
            decreases self.rune_sets@.len() - i,
        {
            let ghost before = out@;
            if self.rune_sets[i].address == a {
                proof {
                    lemma_rune_index(self, i as int);
                }
                let b = total_balance(&self.rune_sets[i].utxos);
                out.push((self.rune_sets[i].runeid, b));
            }
            proof {
                assert forall|q: RuneId| #[trigger] self.seen(a@, i + 1, q) <==> listed(out@, q) by {
                    if self.seen(a@, i as int, q) {
                        let k = choose|k: int|
                            0 <= k < i && (#[trigger] self.rune_sets@[k]).address@ == a@
                                && self.rune_sets@[k].runeid == q;
                        assert(0 <= k < i + 1 && self.rune_sets@[k].address@ == a@);
                    }
                    if self.seen(a@, i + 1, q) && !self.seen(a@, i as int, q) {
                        assert(self.rune_sets@[i as int].runeid == q);
                        assert(out@[out@.len() - 1].0 == q);
                    }
                    if listed(before, q) {
                        let k = choose|k: int| 0 <= k < before.len() && (#[trigger] before[k]).0 == q;
                        assert(out@[k] == before[k]);
                    }
                    if listed(out@, q) {
                        let k = choose|k: int| 0 <= k < out@.len() && (#[trigger] out@[k]).0 == q;
                        if k < before.len() {
                            assert(before[k] == out@[k]);
                        } else {
                            assert(self.rune_sets@[i as int].address@ == a@);
                        }
                    }
                }
            }
            i = i + 1;
        }
        proof {
            assert forall|q: RuneId| self.has_rune_set(a@, q) <==> #[trigger] listed(out@, q) by {
                if self.has_rune_set(a@, q) {
                    let k = self.rune_index(a@, q);
                    assert(self.rune_sets@[k].address@ == a@ && self.rune_sets@[k].runeid == q);
                }
                if self.seen(a@, self.rune_sets@.len() as int, q) {
                    let k = choose|k: int|
                        0 <= k < self.rune_sets@.len() && (#[trigger] self.rune_sets@[k]).address@ == a@
                            && self.rune_sets@[k].runeid == q;
                    assert(self.has_rune_set(a@, q));
                }
            }
        }
        out
    }

    /// Some set among the first `i` belongs to `(a, q)`.
    pub open spec fn seen(&self, a: Seq<char>, i: int, q: RuneId) -> bool {
        exists|k: int|
            0 <= k < i && (#[trigger] self.rune_sets@[k]).address@ == a && self.rune_sets@[k].runeid == q
    }
}

/// Rune `q` appears in the list of balances `r`.
pub open spec fn listed(r: Seq<(RuneId, u128)>, q: RuneId) -> bool {
    exists|k: int| 0 <= k < r.len() && (#[trigger] r[k]).0 == q
}

} // verus!
