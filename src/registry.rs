//! The registry of pools and the order-insensitive pair lookup.

use vstd::prelude::*;

use crate::pool::PoolInfo;
use crate::types::{tokens_equal, TokenType};

verus! {

/// A token pair as recorded when its pool was created.
#[derive(Clone, Copy, Debug, PartialEq, Eq, Structural)]
pub struct AssociatedPoolKey(pub TokenType, pub TokenType);

/// Why a pool could not be created.
#[derive(Clone, Copy, Debug, PartialEq, Eq, Structural)]
pub enum RegistryError {
    SameToken,
    PairExists,
    Overflow,
}

/// Key `k` names the pair `{a, b}`, in either order.
pub open spec fn pair_matches(k: AssociatedPoolKey, a: TokenType, b: TokenType) -> bool {
    (k.0 == a && k.1 == b) || (k.0 == b && k.1 == a)
}

/// All pools, indexed by pool id, and the pair under which each was created.
pub struct PoolState {
    pub pool_mapping: Vec<PoolInfo>,
    pub associated_pool_id_mapping: Vec<(AssociatedPoolKey, u128)>,
}

impl PoolState {
    pub open spec fn has_pair(&self, a: TokenType, b: TokenType) -> bool {
        exists|i: int|
            0 <= i < self.associated_pool_id_mapping@.len() && pair_matches(
                #[trigger] self.associated_pool_id_mapping@[i].0,
                a,
                b,
            )
    }

    /// The pool id of the pair `{a, b}`, if it has a pool.
    pub open spec fn lookup(&self, a: TokenType, b: TokenType) -> Option<u128> {
        if self.has_pair(a, b) {
            Some(
                self.associated_pool_id_mapping@[choose|i: int|
                    0 <= i < self.associated_pool_id_mapping@.len() && pair_matches(
                        #[trigger] self.associated_pool_id_mapping@[i].0,
                        a,
                        b,
                    )].1,
            )
        } else {
            None
        }
    }

    /// Pool `i` has id `i` and was created under entry `i` of the pair
    /// mapping; no pair has two pools; every pool is well formed.
    pub open spec fn wf(&self) -> bool {
        &&& self.pool_mapping@.len() == self.associated_pool_id_mapping@.len()
        &&& forall|i: int|
            0 <= i < self.pool_mapping@.len() ==> (#[trigger] self.pool_mapping@[i]).pool_id == i
                && self.pool_mapping@[i].wf() && self.associated_pool_id_mapping@[i].1 == i
                && self.associated_pool_id_mapping@[i].0 == AssociatedPoolKey(
                self.pool_mapping@[i].token0,
                self.pool_mapping@[i].token1,
            )
        &&& forall|i: int, j: int|
            0 <= i < j < self.associated_pool_id_mapping@.len() ==> !pair_matches(
                #[trigger] self.associated_pool_id_mapping@[i].0,
                (#[trigger] self.associated_pool_id_mapping@[j]).0.0,
                self.associated_pool_id_mapping@[j].0.1,
            )
    }

    /// A registry without pools.
    pub fn new() -> (r: PoolState)
        ensures
            r.wf(),
            r.pool_mapping@.len() == 0,
            forall|a: TokenType, b: TokenType| #[trigger] r.lookup(a, b) == None::<u128>,
    {
        PoolState { pool_mapping: Vec::new(), associated_pool_id_mapping: Vec::new() }
    }

    /// Number of pools; also the id that the next pool receives.
    pub fn pool_count(&self) -> (r: u128)
        ensures
            r == self.pool_mapping@.len(),
    {
        self.pool_mapping.len() as u128
    }

    /// The id of the pool of `{token0, token1}`, whatever the order.
    pub fn get_pool_id_by_tokens(&self, token0: &TokenType, token1: &TokenType) -> (r: Option<u128>)
        requires
            self.wf(),
        ensures
            r == self.lookup(*token0, *token1),
    {
        let mut i: usize = 0;
        while i < self.associated_pool_id_mapping.len()
            invariant
                self.wf(),
                i <= self.associated_pool_id_mapping@.len(),
                forall|k: int|
                    0 <= k < i ==> !pair_matches(
                        #[trigger] self.associated_pool_id_mapping@[k].0,
                        *token0,
                        *token1,
                    ),
            decreases self.associated_pool_id_mapping@.len() - i,
        {
            let key = self.associated_pool_id_mapping[i].0;
            if (tokens_equal(&key.0, token0) && tokens_equal(&key.1, token1)) || (tokens_equal(
                &key.0,
                token1,
            ) && tokens_equal(&key.1, token0)) {
                proof {
                    self.lemma_lookup_at(i as int, *token0, *token1);
                }
                return Some(self.associated_pool_id_mapping[i].1);
            }
            i = i + 1;
        }
        None
    }

    proof fn lemma_lookup_at(&self, i: int, a: TokenType, b: TokenType)
        requires
            self.wf(),
            0 <= i < self.associated_pool_id_mapping@.len(),
            pair_matches(self.associated_pool_id_mapping@[i].0, a, b),
        ensures
            self.lookup(a, b) == Some(self.associated_pool_id_mapping@[i].1),
    {
        let j = choose|j: int|
            0 <= j < self.associated_pool_id_mapping@.len() && pair_matches(
                #[trigger] self.associated_pool_id_mapping@[j].0,
                a,
                b,
            );
        if j < i {
            assert(!pair_matches(
                self.associated_pool_id_mapping@[j].0,
                self.associated_pool_id_mapping@[i].0.0,
                self.associated_pool_id_mapping@[i].0.1,
            ));
        } else if i < j {
            assert(!pair_matches(
                self.associated_pool_id_mapping@[i].0,
                self.associated_pool_id_mapping@[j].0.0,
                self.associated_pool_id_mapping@[j].0.1,
            ));
        }
    }

    /// Creates the pool of `{token0, token1}` with the next id. Refused when
    /// the tokens are equal or the pair, in either order, has a pool.
    pub fn create_pair(
        &mut self,
        token0: TokenType,
        token1: TokenType,
        created_at: u64,
        allocated_raw_subaccount: Vec<u8>,
    ) -> (r: Result<u128, RegistryError>)
        requires
            old(self).wf(),
        ensures
            final(self).wf(),
            token0 == token1 ==> r == Err::<u128, RegistryError>(RegistryError::SameToken) && *final(self) == *old(self),
            token0 != token1 && old(self).lookup(token0, token1).is_some() ==> r == Err::<
                u128,
                RegistryError,
            >(RegistryError::PairExists) && *final(self) == *old(self),
            token0 != token1 && old(self).lookup(token0, token1).is_none() && old(self).pool_mapping@.len() >= u128::MAX ==> r
                == Err::<u128, RegistryError>(RegistryError::Overflow) && *final(self) == *old(self),
            r matches Ok(id) ==> {
                &&& id == old(self).pool_mapping@.len()
                &&& final(self).pool_mapping@.len() == id + 1
                &&& forall|k: int| 0 <= k < id ==> #[trigger] final(self).pool_mapping@[k] == old(self).pool_mapping@[k]
                &&& final(self).pool_mapping@[id as int].token0 == token0
                &&& final(self).pool_mapping@[id as int].token1 == token1
                &&& final(self).pool_mapping@[id as int].created_at == created_at
                &&& final(self).pool_mapping@[id as int].allocated_raw_subaccount@ == allocated_raw_subaccount@
                &&& final(self).pool_mapping@[id as int].reserve0 == 0
                &&& final(self).pool_mapping@[id as int].reserve1 == 0
                &&& final(self).pool_mapping@[id as int].total_supply == 0
                &&& final(self).pool_mapping@[id as int].k_last == 0
                &&& final(self).pool_mapping@[id as int].holders@.len() == 0
                &&& final(self).lookup(token0, token1) == Some(id)
                &&& final(self).lookup(token1, token0) == Some(id)
                &&& forall|a: TokenType, b: TokenType|
                    !pair_matches(AssociatedPoolKey(token0, token1), a, b) ==> #[trigger] final(self).lookup(a, b)
                        == old(self).lookup(a, b)
            },
            r is Ok <==> (token0 != token1 && old(self).lookup(token0, token1).is_none() && old(self).pool_mapping@.len() < u128::MAX),
    {
        if tokens_equal(&token0, &token1) {
            return Err(RegistryError::SameToken);
        }
        if self.get_pool_id_by_tokens(&token0, &token1).is_some() {
            return Err(RegistryError::PairExists);
        }
        let n = self.pool_mapping.len();
        if n as u128 >= u128::MAX {
            return Err(RegistryError::Overflow);
        }
        let id = n as u128;
        let ghost before = *self;
        let pool = PoolInfo::new(id, created_at, allocated_raw_subaccount, token0, token1);
        self.pool_mapping.push(pool);
        self.associated_pool_id_mapping.push((AssociatedPoolKey(token0, token1), id));
        proof {
            let am = self.associated_pool_id_mapping@;
            assert(!before.has_pair(token0, token1));
            assert forall|i: int, j: int| 0 <= i < j < am.len() implies !pair_matches(
                #[trigger] am[i].0,
                (#[trigger] am[j]).0.0,
                am[j].0.1,
            ) by {
                if j == n {
                    assert(am[i] == before.associated_pool_id_mapping@[i]);
                    if pair_matches(am[i].0, token0, token1) {
                        assert(before.has_pair(token0, token1));
                    }
                } else {
                    assert(am[i] == before.associated_pool_id_mapping@[i]);
                    assert(am[j] == before.associated_pool_id_mapping@[j]);
                }
            }
            assert(self.wf());
            self.lemma_lookup_at(n as int, token0, token1);
            self.lemma_lookup_at(n as int, token1, token0);
            assert forall|a: TokenType, b: TokenType|
                !pair_matches(AssociatedPoolKey(token0, token1), a, b) implies #[trigger] self.lookup(a, b)
                == before.lookup(a, b) by {
                if before.has_pair(a, b) {
                    let k = choose|k: int|
                        0 <= k < before.associated_pool_id_mapping@.len() && pair_matches(
                            #[trigger] before.associated_pool_id_mapping@[k].0,
                            a,
                            b,
                        );
                    before.lemma_lookup_at(k, a, b);
                    assert(am[k] == before.associated_pool_id_mapping@[k]);
                    self.lemma_lookup_at(k, a, b);
                } else if self.has_pair(a, b) {
                    let k = choose|k: int| 0 <= k < am.len() && pair_matches(#[trigger] am[k].0, a, b);
                    if k < n {
                        assert(am[k] == before.associated_pool_id_mapping@[k]);
                    }
                }
            }
        }
        Ok(id)
    }

    /// Replaces pool `pool.pool_id` by `pool`, which keeps its tokens.
    pub fn replace_pool(&mut self, pool: PoolInfo)
        requires
            old(self).wf(),
            pool.wf(),
            pool.pool_id < old(self).pool_mapping@.len(),
            pool.token0 == old(self).pool_mapping@[pool.pool_id as int].token0,
            pool.token1 == old(self).pool_mapping@[pool.pool_id as int].token1,
        ensures
            final(self).wf(),
            final(self).pool_mapping@ == old(self).pool_mapping@.update(pool.pool_id as int, pool),
            final(self).associated_pool_id_mapping == old(self).associated_pool_id_mapping,
    {
        let n = self.pool_mapping.len();
        let i = pool.pool_id as usize;
        assert(i as int == pool.pool_id as int && i < n);
        let ghost before = *self;
        let ghost p = pool;
        self.pool_mapping.set(i, pool);
        proof {
            assert forall|k: int| 0 <= k < self.pool_mapping@.len() implies (#[trigger] self.pool_mapping@[k]).pool_id == k
                && self.pool_mapping@[k].wf() && self.associated_pool_id_mapping@[k].1 == k
                && self.associated_pool_id_mapping@[k].0 == AssociatedPoolKey(
                self.pool_mapping@[k].token0,
                self.pool_mapping@[k].token1,
            ) by {
                if k != i {
                    assert(self.pool_mapping@[k] == before.pool_mapping@[k]);
                }
            }
        }
    }
}

/// The pair lookup does not depend on the order of the two tokens.
pub proof fn lemma_lookup_symmetric(s: &PoolState, a: TokenType, b: TokenType)
    requires
        s.wf(),
    ensures
        s.lookup(a, b) == s.lookup(b, a),
{
    if s.has_pair(a, b) {
        let i = choose|i: int|
            0 <= i < s.associated_pool_id_mapping@.len() && pair_matches(
                #[trigger] s.associated_pool_id_mapping@[i].0,
                a,
                b,
            );
        s.lemma_lookup_at(i, a, b);
        s.lemma_lookup_at(i, b, a);
    } else {
        assert(!s.has_pair(b, a)) by {
            if s.has_pair(b, a) {
                let i = choose|i: int|
                    0 <= i < s.associated_pool_id_mapping@.len() && pair_matches(
                        #[trigger] s.associated_pool_id_mapping@[i].0,
                        b,
                        a,
                    );
                assert(pair_matches(s.associated_pool_id_mapping@[i].0, a, b));
            }
        }
    }
}

} // verus!
