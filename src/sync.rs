//! Decisions of the rune-aware synchroniser.

use vstd::prelude::*;

use crate::types::{RuneBalance, RuneId, RunicUtxo, Utxo};
use crate::utxo_manager::UtxoManager;
use crate::utxo_set::{btc_record, has_outpoint, runic_has_outpoint, same_outpoint, balance_sum, value_sum};

verus! {

/// The balance that a synchronisation of one address aims for.
#[derive(Clone, Copy, Debug)]
pub enum TargetType {
    Bitcoin { target: u64 },
    Runic { runeid: RuneId, target: u128 },
}

/// Balance of the first entry for rune `q` in `runes`, if there is one.
pub open spec fn first_balance(runes: Seq<RuneBalance>, q: RuneId) -> Option<u128>
    decreases runes.len(),
{
    if runes.len() == 0 {
        None
    } else {
        match first_balance(runes.drop_last(), q) {
            Some(b) => Some(b),
            None => if runes.last().id == q {
                Some(runes.last().balance)
            } else {
                None
            },
        }
    }
}

/// The runic sets of `a` after classifying `u` as carrying `runes`.
pub open spec fn runic_after(
    old: UtxoManager,
    a: Seq<char>,
    u: Utxo,
    runes: Seq<RuneBalance>,
    q: RuneId,
) -> Seq<RunicUtxo> {
    match first_balance(runes, q) {
        Some(b) => old.runic(a, q).push(RunicUtxo { utxo: u, balance: b }),
        None => old.runic(a, q),
    }
}

/// Whether the balance of `addr` still falls short of `target` according
/// to the index.
pub open spec fn below_target(m: UtxoManager, addr: Seq<char>, target: TargetType) -> bool {
    match target {
        TargetType::Bitcoin { target } => value_sum(m.btc(addr)) < target,
        TargetType::Runic { runeid, target } => balance_sum(m.runic(addr, runeid)) < target,
    }
}

impl UtxoManager {
    /// Records the indexer's answer for output `utxo` of `addr`: an output
    /// already recorded as runic is left alone; one that the indexer could
    /// not classify, or that carries no rune, becomes plain; otherwise it
    /// leaves the plain set and is recorded under each rune it carries.
    pub fn apply_classification(
        &mut self,
        addr: &str,
        utxo: Utxo,
        runes: &Result<Vec<RuneBalance>, crate::records::OrdError>,
    )
        requires
            old(self).wf(),
        ensures
            final(self).wf(),
            old(self).partitioned(addr@) ==> final(self).partitioned(addr@),
            forall|b: Seq<char>| b != addr@ ==> #[trigger] final(self).btc(b) == old(self).btc(b),
            forall|b: Seq<char>, q: RuneId|
                b != addr@ ==> #[trigger] final(self).runic(b, q) == old(self).runic(b, q),
            old(self).is_runic(addr@, utxo) ==> {
                &&& !has_outpoint(final(self).btc(addr@), utxo.outpoint)
                &&& (!has_outpoint(old(self).btc(addr@), utxo.outpoint) ==> final(self).btc(addr@)
                    == old(self).btc(addr@))
                &&& forall|q: RuneId| #[trigger] final(self).runic(addr@, q) == old(self).runic(addr@, q)
            },
            !(has_outpoint(final(self).btc(addr@), utxo.outpoint) && final(self).is_runic(addr@, utxo)),
            !old(self).is_runic(addr@, utxo) ==> match runes {
                Ok(v) if v@.len() > 0 => {
                    &&& !has_outpoint(final(self).btc(addr@), utxo.outpoint)
                    &&& forall|q: RuneId|
                        #[trigger] final(self).runic(addr@, q) == runic_after(
                            *old(self),
                            addr@,
                            utxo,
                            v@,
                            q,
                        )
                },
                _ => {
                    &&& final(self).btc(addr@) == btc_record(old(self).btc(addr@), seq![utxo])
                    &&& forall|q: RuneId| #[trigger] final(self).runic(addr@, q) == old(self).runic(addr@, q)
                },
            },
    {
        if self.is_recorded_as_runic(addr, &utxo) {
            let ghost before = *self;
            self.remove_btc_utxo(addr, &utxo);
            proof {
                assert forall|q: RuneId| #[trigger] self.runic(addr@, q) == before.runic(addr@, q) by {}
                if before.partitioned(addr@) {
                    let s0 = before.btc(addr@);
                    assert forall|k: int| 0 <= k < self.btc(addr@).len() implies !self.is_runic(
                        addr@,
                        #[trigger] self.btc(addr@)[k],
                    ) by {
                        if has_outpoint(s0, utxo.outpoint) {
                            let i = choose|i: int|
                                0 <= i < s0.len() && same_outpoint(s0[i].outpoint, utxo.outpoint)
                                    && self.btc(addr@) == s0.remove(i);
                            let kk = if k < i { k } else { k + 1 };
                            assert(self.btc(addr@)[k] == s0[kk]);
                            assert(!before.is_runic(addr@, s0[kk]));
                        } else {
                            assert(self.btc(addr@)[k] == s0[k]);
                        }
                        assert forall|q: RuneId| #[trigger] self.runic(addr@, q) == before.runic(addr@, q) by {}
                    }
                }
            }
            return;
        }
        let plain = match runes {
            Ok(v) => v.len() == 0,
            Err(_) => true,
        };
        if plain {
            let ghost before = *self;
            let mut batch: Vec<Utxo> = Vec::new();
            batch.push(utxo);
            proof {
                assert(batch@ =~= seq![utxo]);
            }
            self.record_btc_utxos(addr, batch);
            proof {
                let s = before.btc(addr@);
                assert(seq![utxo].drop_last() =~= Seq::<Utxo>::empty());
                assert(btc_record(s, seq![utxo].drop_last()) == s);
                assert(self.btc(addr@) == if has_outpoint(s, utxo.outpoint) { s } else { s.push(utxo) });
                if before.partitioned(addr@) {
                    assert forall|k: int| 0 <= k < self.btc(addr@).len() implies !self.is_runic(
                        addr@,
                        #[trigger] self.btc(addr@)[k],
                    ) by {
                        if k < s.len() {
                            assert(self.btc(addr@)[k] == s[k]);
                        } else {
                            assert(self.btc(addr@)[k] == utxo);
                        }
                        assert forall|q: RuneId| #[trigger] self.runic(addr@, q) == before.runic(addr@, q) by {}
                    }
                }
            }
            return;
        }
        let v = match runes {
            Ok(v) => v,
            Err(_) => { return; },
        };
        let ghost before = *self;
        self.remove_btc_utxo(addr, &utxo);
        let ghost removed = *self;
        let mut k: usize = 0;
        while k < v.len()
            invariant
                self.wf(),
                k <= v@.len(),
                before.wf(),
                !before.is_runic(addr@, utxo),
                !has_outpoint(self.btc(addr@), utxo.outpoint),
                forall|b: Seq<char>| #[trigger] self.btc(b) == removed.btc(b),
                forall|b: Seq<char>| b != addr@ ==> #[trigger] removed.btc(b) == before.btc(b),
                forall|b: Seq<char>, q: RuneId|
                    b != addr@ ==> #[trigger] self.runic(b, q) == before.runic(b, q),
                forall|q: RuneId|
                    #[trigger] self.runic(addr@, q) == runic_after(
                        before,
                        addr@,
                        utxo,
                        v@.subrange(0, k as int),
                        q,
                    ),
            decreases v@.len() - k,
        {
            let rb = v[k];
            let mut one: Vec<RunicUtxo> = Vec::new();
            one.push(RunicUtxo { utxo, balance: rb.balance });
            let ghost mid = *self;
            let ghost one_s = one@;
            proof {
                assert(one_s =~= seq![RunicUtxo { utxo, balance: rb.balance }]);
            }
            self.record_runic_utxos(addr, rb.id, one);
            proof {
                let p = v@.subrange(0, k + 1);
                assert(p.drop_last() =~= v@.subrange(0, k as int));
                assert(p.last() == rb);
                assert forall|q: RuneId| #[trigger] self.runic(addr@, q) == runic_after(
                    before,
                    addr@,
                    utxo,
                    p,
                    q,
                ) by {
                    if q == rb.id {
                        let old_set = mid.runic(addr@, q);
                        assert(one_s.drop_last() =~= Seq::<RunicUtxo>::empty());
                        assert(crate::utxo_set::runic_record(old_set, one_s.drop_last()) == old_set);
                        assert(self.runic(addr@, q) == if runic_has_outpoint(old_set, utxo.outpoint) {
                            old_set
                        } else {
                            old_set.push(one_s[0])
                        });
                        match first_balance(v@.subrange(0, k as int), q) {
                            Some(b) => {
                                assert(old_set.last().utxo == utxo);
                                assert(runic_has_outpoint(old_set, utxo.outpoint)) by {
                                    assert(same_outpoint(old_set[old_set.len() - 1].utxo.outpoint, utxo.outpoint));
                                }
                            },
                            None => {
                                assert(!before.is_runic(addr@, utxo));
                                assert(!runic_has_outpoint(before.runic(addr@, q), utxo.outpoint));
                            },
                        }
                    } else {
                        assert(self.runic(addr@, q) == mid.runic(addr@, q));
                    }
                }
            }
            k = k + 1;
        }
        proof {
            assert(v@.subrange(0, v@.len() as int) =~= v@);
            if before.partitioned(addr@) {
                assert forall|j: int| 0 <= j < self.btc(addr@).len() implies !self.is_runic(
                    addr@,
                    #[trigger] self.btc(addr@)[j],
                ) by {
                    let x = self.btc(addr@)[j];
                    assert(!same_outpoint(x.outpoint, utxo.outpoint));
                    assert(has_outpoint(removed.btc(addr@), x.outpoint));
                    assert(exists|i: int| 0 <= i < before.btc(addr@).len() && same_outpoint(before.btc(addr@)[i].outpoint, x.outpoint) && before.btc(addr@)[i] == x) by {
                        if has_outpoint(before.btc(addr@), utxo.outpoint) {
                            let i0 = choose|i: int| 0 <= i < before.btc(addr@).len() && same_outpoint(before.btc(addr@)[i].outpoint, utxo.outpoint) && removed.btc(addr@) == before.btc(addr@).remove(i);
                            let jj = if j < i0 { j } else { j + 1 };
                            assert(before.btc(addr@)[jj] == x);
                        } else {
                            assert(before.btc(addr@)[j] == x);
                        }
                    }
                    let i1 = choose|i: int| 0 <= i < before.btc(addr@).len() && same_outpoint(before.btc(addr@)[i].outpoint, x.outpoint) && before.btc(addr@)[i] == x;
                    assert(!before.is_runic(addr@, before.btc(addr@)[i1]));
                    assert forall|q: RuneId| !runic_has_outpoint(#[trigger] self.runic(addr@, q), x.outpoint) by {
                        assert(!runic_has_outpoint(before.runic(addr@, q), x.outpoint));
                        let s2 = self.runic(addr@, q);
                        if runic_has_outpoint(s2, x.outpoint) {
                            let t = choose|t: int| 0 <= t < s2.len() && same_outpoint(#[trigger] s2[t].utxo.outpoint, x.outpoint);
                            if t < before.runic(addr@, q).len() {
                                assert(s2[t] == before.runic(addr@, q)[t]);
                            }
                        }
                    }
                }
            }
        }
    }

    /// Whether synchronisation of `addr` should fetch the next page: the
    /// target is not met yet and there is a page left.
    pub fn sync_should_continue(&self, addr: &str, target: &TargetType, has_next_page: bool) -> (r:
        bool)
        requires
            self.wf(),
        ensures
            r == (has_next_page && below_target(*self, addr@, *target)),
    {
        if !has_next_page {
            return false;
        }
        match target {
            TargetType::Bitcoin { target } => {
                let b = self.get_bitcoin_balance(addr);
                b < *target
            },
            TargetType::Runic { runeid, target } => {
                let b = self.get_runestone_balance(addr, runeid);
                b < *target
            },
        }
    }
}

} // verus!
