//! The constant-product pool engine.

use vstd::prelude::*;

use crate::bytes::bytes_eq;
use crate::types::{tokens_equal, TokenType};

verus! {

/// Liquidity locked forever in a pool at its first mint.
pub const MINIMUM_LIQUIDITY: u64 = 1000;

/// Why a pool operation was refused.
#[derive(Clone, Copy, Debug, PartialEq, Eq, Structural)]
pub enum PoolError {
    InsufficientInputAmount,
    InsufficientOutputAmount,
    InsufficientLiquidity,
    InsufficientLiquidityMinted,
    InsufficientLiquidityBurned,
    InsufficientAAmount,
    InsufficientBAmount,
    NotEnoughLiquidity,
    InvalidK,
    Overflow,
    SameToken,
    UnknownToken,
    ExcessiveInputAmount,
    ExceedsAmountOutMin,
}

impl PoolError {
    /// The message reported to users for this error.
    pub fn message(&self) -> String {
        match self {
            PoolError::InsufficientInputAmount => String::from_str("Insuficient Input Amount"),
            PoolError::InsufficientOutputAmount => String::from_str("Insuficient Output Amount"),
            PoolError::InsufficientLiquidity => String::from_str("Insuficient Liquidity"),
            PoolError::InsufficientLiquidityMinted => String::from_str("INSUFFICIENT LIQUIDITY MINTED"),
            PoolError::InsufficientLiquidityBurned => String::from_str("Insuficient Liquidity Burned"),
            PoolError::InsufficientAAmount => String::from_str("Insuficient A_AMOUNT"),
            PoolError::InsufficientBAmount => String::from_str("Insuficient B_AMOUNT"),
            PoolError::NotEnoughLiquidity => String::from_str("Not enough Liquidity"),
            PoolError::InvalidK => String::from_str("Invalid K"),
            PoolError::Overflow => String::from_str("Arithmetic Overflow"),
            PoolError::SameToken => String::from_str("Same Token"),
            PoolError::UnknownToken => String::from_str("Token not in pool"),
            PoolError::ExcessiveInputAmount => String::from_str("failed"),
            PoolError::ExceedsAmountOutMin => String::from_str("exceeds amount_out_min"),
        }
    }
}

/// Liquidity balances: one entry per holder principal (its raw bytes).
pub type Holders = Vec<(Vec<u8>, u64)>;

/// Sum of all holder balances.
pub open spec fn holders_total(h: Seq<(Vec<u8>, u64)>) -> int
    decreases h.len(),
{
    if h.len() == 0 {
        0
    } else {
        holders_total(h.drop_last()) + h.last().1
    }
}

/// Balance of principal `p` (zero if it holds nothing).
pub open spec fn holder_balance(h: Seq<(Vec<u8>, u64)>, p: Seq<u8>) -> int
    decreases h.len(),
{
    if h.len() == 0 {
        0
    } else if h.last().0@ == p {
        h.last().1 as int
    } else {
        holder_balance(h.drop_last(), p)
    }
}

/// No principal has two entries.
pub open spec fn holders_unique(h: Seq<(Vec<u8>, u64)>) -> bool {
    forall|i: int, j: int| 0 <= i < j < h.len() ==> h[i].0@ != h[j].0@
}

proof fn lemma_balance_absent(h: Seq<(Vec<u8>, u64)>, p: Seq<u8>)
    requires
        forall|k: int| 0 <= k < h.len() ==> h[k].0@ != p,
    ensures
        holder_balance(h, p) == 0,
    decreases h.len(),
{
    if h.len() > 0 {
        lemma_balance_absent(h.drop_last(), p);
    }
}

proof fn lemma_balance_at(h: Seq<(Vec<u8>, u64)>, i: int)
    requires
        holders_unique(h),
        0 <= i < h.len(),
    ensures
        holder_balance(h, h[i].0@) == h[i].1,
    decreases h.len(),
{
    if i < h.len() - 1 {
        assert(h[i] == h.drop_last()[i]);
        lemma_balance_at(h.drop_last(), i);
    }
}

proof fn lemma_balance_le_total(h: Seq<(Vec<u8>, u64)>, p: Seq<u8>)
    ensures
        0 <= holder_balance(h, p) <= holders_total(h),
    decreases h.len(),
{
    if h.len() > 0 {
        lemma_balance_le_total(h.drop_last(), p);
        lemma_total_nonneg(h.drop_last());
    }
}

proof fn lemma_total_nonneg(h: Seq<(Vec<u8>, u64)>)
    ensures
        holders_total(h) >= 0,
    decreases h.len(),
{
    if h.len() > 0 {
        lemma_total_nonneg(h.drop_last());
    }
}

proof fn lemma_update(h: Seq<(Vec<u8>, u64)>, i: int, e: (Vec<u8>, u64))
    requires
        holders_unique(h),
        0 <= i < h.len(),
        e.0@ == h[i].0@,
    ensures
        holders_unique(h.update(i, e)),
        holders_total(h.update(i, e)) == holders_total(h) - h[i].1 + e.1,
        forall|q: Seq<u8>|
            holder_balance(h.update(i, e), q) == if q == h[i].0@ {
                e.1 as int
            } else {
                holder_balance(h, q)
            },
    decreases h.len(),
{
    let h2 = h.update(i, e);
    if i == h.len() - 1 {
        assert(h2.drop_last() =~= h.drop_last());
        assert forall|q: Seq<u8>|
            holder_balance(h2, q) == if q == h[i].0@ {
                e.1 as int
            } else {
                holder_balance(h, q)
            } by {}
    } else {
        assert(h2.drop_last() =~= h.drop_last().update(i, e));
        assert(h.drop_last()[i] == h[i]);
        lemma_update(h.drop_last(), i, e);
        assert forall|q: Seq<u8>|
            holder_balance(h2, q) == if q == h[i].0@ {
                e.1 as int
            } else {
                holder_balance(h, q)
            } by {
            assert(h2.last() == h.last());
            let hd = h.drop_last();
            assert(holder_balance(h2.drop_last(), q) == holder_balance(hd.update(i, e), q));
            if q == h[i].0@ {
                assert(h[h.len() - 1].0@ != h[i].0@);
                assert(holder_balance(h2, q) == holder_balance(h2.drop_last(), q));
            } else {
                if h.last().0@ == q {
                } else {
                    assert(holder_balance(h, q) == holder_balance(hd, q));
                }
            }
        }
    }
}

proof fn lemma_push(h: Seq<(Vec<u8>, u64)>, e: (Vec<u8>, u64))
    requires
        holders_unique(h),
        forall|k: int| 0 <= k < h.len() ==> h[k].0@ != e.0@,
    ensures
        holders_unique(h.push(e)),
        holders_total(h.push(e)) == holders_total(h) + e.1,
        forall|q: Seq<u8>|
            holder_balance(h.push(e), q) == if q == e.0@ {
                e.1 as int
            } else {
                holder_balance(h, q)
            },
{
    assert(h.push(e).drop_last() =~= h);
}

/// Position of principal `p` among the holders, if it holds an entry.
fn find_holder(h: &Holders, p: &Vec<u8>) -> (r: Option<usize>)
    ensures
        match r {
            Some(i) => i < h@.len() && h@[i as int].0@ == p@,
            None => forall|k: int| 0 <= k < h@.len() ==> h@[k].0@ != p@,
        },
{
    let mut i: usize = 0;
    while i < h.len()
        invariant
            i <= h@.len(),
            forall|k: int| 0 <= k < i ==> h@[k].0@ != p@,
        decreases h@.len() - i,
    {
        if bytes_eq(&h[i].0, p) {
            return Some(i);
        }
        i = i + 1;
    }
    None
}

/// Balance of principal `p` in `h`.
pub fn balance_of(h: &Holders, p: &Vec<u8>) -> (r: u64)
    requires
        holders_unique(h@),
    ensures
        r == holder_balance(h@, p@),
{
    match find_holder(h, p) {
        Some(i) => {
            proof {
                lemma_balance_at(h@, i as int);
            }
            h[i].1
        },
        None => {
            proof {
                lemma_balance_absent(h@, p@);
            }
            0
        },
    }
}

/// Largest `r` with `r * r <= n`.
pub open spec fn is_floor_sqrt(r: int, n: int) -> bool {
    0 <= r && r * r <= n < (r + 1) * (r + 1)
}

pub open spec fn floor_sqrt(n: int) -> int {
    choose|r: int| is_floor_sqrt(r, n)
}

proof fn lemma_floor_sqrt_unique(r: int, n: int)
    requires
        is_floor_sqrt(r, n),
    ensures
        floor_sqrt(n) == r,
{
    let s = floor_sqrt(n);
    assert(is_floor_sqrt(s, n));
    if s < r {
        assert((s + 1) * (s + 1) <= r * r) by (nonlinear_arith)
            requires
                0 <= s < r,
        ;
    } else if r < s {
        assert((r + 1) * (r + 1) <= s * s) by (nonlinear_arith)
            requires
                0 <= r < s,
        ;
    }
}

/// Relies on num_integer::sqrt: the truncated square root of `n`, that is the
/// `r` with `r * r <= n < (r + 1) * (r + 1)` (unsigned input, so no panic).
#[verifier::external_body]
fn integer_sqrt(n: u128) -> (r: u128)
    ensures
        is_floor_sqrt(r as int, n as int),
{
    num_integer::sqrt(n)
}

fn sqrt_u128(n: u128) -> (r: u128)
    ensures
        r == floor_sqrt(n as int),
        r <= u64::MAX,
{
    let r = integer_sqrt(n);
    proof {
        lemma_floor_sqrt_unique(r as int, n as int);
        if r > u64::MAX {
            assert(r * r >= 0x1_0000_0000_0000_0000 * 0x1_0000_0000_0000_0000) by (nonlinear_arith)
                requires
                    r >= 0x1_0000_0000_0000_0000int,
            ;
        }
    }
    r
}


proof fn lemma_div_le(a: int, b: int, c: int)
    requires
        c > 0,
        0 <= a <= b * c,
    ensures
        0 <= a / c <= b,
{
    vstd::arithmetic::div_mod::lemma_fundamental_div_mod(a, c);
    let q = a / c;
    assert(0 <= a % c < c) by {
        vstd::arithmetic::div_mod::lemma_mod_bound(a, c);
    }
    assert(q <= b) by (nonlinear_arith)
        requires
            c > 0,
            a == c * q + a % c,
            0 <= a % c,
            a <= b * c,
    ;
    assert(q >= 0) by (nonlinear_arith)
        requires
            c > 0,
            a == c * q + a % c,
            a % c < c,
            a >= 0,
    ;
}

proof fn lemma_mul_u64_fits(a: int, b: int)
    requires
        0 <= a <= u64::MAX,
        0 <= b <= u64::MAX,
    ensures
        0 <= (a as int) * (b as int) <= u128::MAX,
{
    assert(0 <= (a as int) * (b as int) <= 0xffff_ffff_ffff_ffffint * 0xffff_ffff_ffff_ffffint)
        by (nonlinear_arith)
        requires
            0 <= a <= 0xffff_ffff_ffff_ffffint,
            0 <= b <= 0xffff_ffff_ffff_ffffint,
    ;
}

/// `a * b / c`, computed without intermediate overflow; `None` when the
/// quotient does not fit in 64 bits.
fn mul_div(a: u64, b: u64, c: u64) -> (r: Option<u64>)
    requires
        c > 0,
    ensures
        r == if (a as int) * (b as int) / (c as int) <= u64::MAX {
            Some(((a as int) * (b as int) / (c as int)) as u64)
        } else {
            None::<u64>
        },
{
    proof {
        lemma_mul_u64_fits(a as int, b as int);
    }
    let prod: u128 = (a as u128) * (b as u128);
    let q: u128 = prod / (c as u128);
    if q <= u64::MAX as u128 {
        Some(q as u64)
    } else {
        None
    }
}

/// The output amount of a swap of `amount_in` into a pool side with reserves
/// `reserve_in` / `reserve_out`, after the 0.3% fee.
pub open spec fn amount_out_value(amount_in: int, reserve_in: int, reserve_out: int) -> int {
    (amount_in * 997 * reserve_out) / (reserve_in * 1000 + amount_in * 997)
}

/// `amount * num / den`: the amount of one token worth `amount` of the other
/// at reserves `num` (of the one) and `den` (of the other).
pub open spec fn quote_value(amount: u64, num: u64, den: u64) -> Result<u64, PoolError> {
    if amount == 0 {
        Err(PoolError::InsufficientInputAmount)
    } else if den == 0 {
        Err(PoolError::InsufficientLiquidity)
    } else if (amount as int) * (num as int) / (den as int) > u64::MAX {
        Err(PoolError::Overflow)
    } else {
        Ok(((amount as int) * (num as int) / (den as int)) as u64)
    }
}

/// Balance after a swap, less the 0.3% fee on what came in, scaled by 1000:
/// the factor that the constant-product check multiplies.
pub open spec fn adjusted(reserve: int, amount_in: int, amount_out: int) -> int {
    (reserve + amount_in - amount_out) * 1000 - amount_in * 3
}

/// A constant-product pool over two tokens.
#[derive(Clone, Debug)]
pub struct PoolInfo {
    pub pool_id: u128,
    pub created_at: u64,
    pub allocated_raw_subaccount: Vec<u8>,
    pub token0: TokenType,
    pub token1: TokenType,
    pub k_last: u128,
    pub reserve0: u64,
    pub reserve1: u64,
    pub last_updated: u64,
    pub total_supply: u64,
    pub holders: Holders,
}

/// Outcome of a successful burn.
pub struct BurnResult {
    pub raw_subaccount: Vec<u8>,
    pub token0: TokenType,
    pub token1: TokenType,
    pub amount0: u64,
    pub amount1: u64,
}

/// Outcome of a successful swap: which token leaves the pool, and how much.
pub struct SwapResult {
    pub raw_subaccount: Vec<u8>,
    pub token: TokenType,
    pub amount: u64,
}

/// Liquidity that a mint of `(a0, a1)` into pool `p` creates, or why it is refused.
pub open spec fn mint_liquidity(p: PoolInfo, a0: u64, a1: u64) -> Result<int, PoolError> {
    if p.total_supply == 0 {
        let s = floor_sqrt((a0 as int) * (a1 as int));
        if s <= MINIMUM_LIQUIDITY {
            Err(PoolError::InsufficientLiquidityMinted)
        } else {
            Ok(s - MINIMUM_LIQUIDITY)
        }
    } else if p.reserve0 == 0 || p.reserve1 == 0 {
        Err(PoolError::InsufficientLiquidity)
    } else {
        let v0 = (a0 as int) * (p.total_supply as int) / (p.reserve0 as int);
        let v1 = (a1 as int) * (p.total_supply as int) / (p.reserve1 as int);
        let l = if v0 <= v1 { v0 } else { v1 };
        if l == 0 {
            Err(PoolError::InsufficientLiquidityMinted)
        } else if l > u64::MAX {
            Err(PoolError::Overflow)
        } else {
            Ok(l)
        }
    }
}

/// Liquidity minted to the protocol-fee receiver for the growth of the
/// constant product since the last recorded `k_last`.
pub open spec fn protocol_fee(p: PoolInfo) -> int {
    if p.k_last == 0 {
        0
    } else {
        let rk = floor_sqrt((p.reserve0 as int) * (p.reserve1 as int));
        let rl = floor_sqrt(p.k_last as int);
        if rk > rl {
            (p.total_supply as int) * (rk - rl) / (5 * rk + rl)
        } else {
            0
        }
    }
}

/// The fields of a pool that no operation changes.
pub open spec fn same_identity(a: PoolInfo, b: PoolInfo) -> bool {
    &&& a.pool_id == b.pool_id
    &&& a.created_at == b.created_at
    &&& a.allocated_raw_subaccount@ == b.allocated_raw_subaccount@
    &&& a.token0 == b.token0
    &&& a.token1 == b.token1
}

impl PoolInfo {
    /// Holder entries are unique and add up to the total supply; the two
    /// tokens differ.
    pub open spec fn wf(&self) -> bool {
        &&& holders_unique(self.holders@)
        &&& holders_total(self.holders@) == self.total_supply
        &&& self.token0 != self.token1
    }

    /// A pool with nothing in it.
    pub fn new(
        pool_id: u128,
        created_at: u64,
        allocated_raw_subaccount: Vec<u8>,
        token0: TokenType,
        token1: TokenType,
    ) -> (r: PoolInfo)
        requires
            token0 != token1,
        ensures
            r.wf(),
            r.pool_id == pool_id,
            r.created_at == created_at,
            r.allocated_raw_subaccount@ == allocated_raw_subaccount@,
            r.token0 == token0,
            r.token1 == token1,
            r.k_last == 0,
            r.reserve0 == 0,
            r.reserve1 == 0,
            r.last_updated == created_at,
            r.total_supply == 0,
            r.holders@.len() == 0,
    {
        PoolInfo {
            pool_id,
            created_at,
            allocated_raw_subaccount,
            token0,
            token1,
            k_last: 0,
            reserve0: 0,
            reserve1: 0,
            last_updated: created_at,
            total_supply: 0,
            holders: Vec::new(),
        }
    }

    pub fn is_reserve_empty(&self) -> (r: bool)
        ensures
            r == (self.reserve0 == 0 && self.reserve1 == 0),
    {
        self.reserve0 == 0 && self.reserve1 == 0
    }

    /// Liquidity balance of principal `p`.
    pub fn liquidity_of(&self, p: &Vec<u8>) -> (r: u64)
        requires
            self.wf(),
        ensures
            r == holder_balance(self.holders@, p@),
    {
        balance_of(&self.holders, p)
    }

    /// Amount of token1 worth `amount0` of token0 at the current reserves.
    pub fn quote_a(&self, amount0: u64) -> (r: Result<u64, PoolError>)
        ensures
            r == quote_value(amount0, self.reserve1, self.reserve0),
    {
        if amount0 == 0 {
            return Err(PoolError::InsufficientInputAmount);
        }
        if self.reserve0 == 0 {
            return Err(PoolError::InsufficientLiquidity);
        }
        match mul_div(amount0, self.reserve1, self.reserve0) {
            Some(v) => Ok(v),
            None => Err(PoolError::Overflow),
        }
    }

    /// Amount of token0 worth `amount1` of token1 at the current reserves.
    pub fn quote_b(&self, amount1: u64) -> (r: Result<u64, PoolError>)
        ensures
            r == quote_value(amount1, self.reserve0, self.reserve1),
    {
        if amount1 == 0 {
            return Err(PoolError::InsufficientInputAmount);
        }
        if self.reserve1 == 0 {
            return Err(PoolError::InsufficientLiquidity);
        }
        match mul_div(amount1, self.reserve0, self.reserve1) {
            Some(v) => Ok(v),
            None => Err(PoolError::Overflow),
        }
    }

    /// Output of swapping `amount_in` of `token_in` (token1 unless it is token0).
    pub fn get_amount_out(&self, amount_in: u64, token_in: &TokenType) -> (r: Result<u64, PoolError>)
        ensures
            ({
                let (rin, rout) = if *token_in == self.token0 {
                    (self.reserve0 as int, self.reserve1 as int)
                } else {
                    (self.reserve1 as int, self.reserve0 as int)
                };
                r == if rin * 1000 + amount_in * 997 == 0 {
                    Err(PoolError::InsufficientLiquidity)
                } else if amount_in * 997 * rout > u128::MAX {
                    Err(PoolError::Overflow)
                } else {
                    Ok(amount_out_value(amount_in as int, rin, rout) as u64)
                }
            }),
            r matches Ok(v) ==> v <= if *token_in == self.token0 {
                self.reserve1
            } else {
                self.reserve0
            },
            r matches Ok(v) ==> v as int == if *token_in == self.token0 {
                amount_out_value(amount_in as int, self.reserve0 as int, self.reserve1 as int)
            } else {
                amount_out_value(amount_in as int, self.reserve1 as int, self.reserve0 as int)
            },
    {
        let (rin, rout) = if tokens_equal(token_in, &self.token0) {
            (self.reserve0, self.reserve1)
        } else {
            (self.reserve1, self.reserve0)
        };
        let with_fee: u128 = (amount_in as u128) * 997;
        let den: u128 = (rin as u128) * 1000 + with_fee;
        if den == 0 {
            return Err(PoolError::InsufficientLiquidity);
        }
        match with_fee.checked_mul(rout as u128) {
            None => Err(PoolError::Overflow),
            Some(num) => {
                let q = num / den;
                proof {
                    assert(num <= (rout as int) * (den as int)) by (nonlinear_arith)
                        requires
                            num == with_fee * rout,
                            with_fee <= den,
                            0 <= rout,
                    ;
                    lemma_div_le(num as int, rout as int, den as int);
                }
                Ok(q as u64)
            },
        }
    }

    /// Splits a swap request into `(amount0_in, amount0_out, amount1_in, amount1_out)`.
    pub fn sort_tokens(&self, token_in: &TokenType, amount_in: u64, amount_out: u64) -> (r: (
        u64,
        u64,
        u64,
        u64,
    ))
        ensures
            r == if *token_in == self.token0 {
                (amount_in, 0u64, 0u64, amount_out)
            } else {
                (0u64, amount_out, amount_in, 0u64)
            },
    {
        if tokens_equal(&self.token0, token_in) {
            (amount_in, 0, 0, amount_out)
        } else {
            (0, amount_out, amount_in, 0)
        }
    }
}


/// Adds `amount` to the balance of `to`.
fn credit_holder(h: &mut Holders, to: &Vec<u8>, amount: u64)
    requires
        holders_unique(old(h)@),
        holders_total(old(h)@) + amount <= u64::MAX,
    ensures
        holders_unique(final(h)@),
        holders_total(final(h)@) == holders_total(old(h)@) + amount,
        forall|q: Seq<u8>|
            holder_balance(final(h)@, q) == holder_balance(old(h)@, q) + if q == to@ {
                amount as int
            } else {
                0
            },
{
    match find_holder(h, to) {
        Some(i) => {
            proof {
                lemma_balance_at(h@, i as int);
                lemma_balance_le_total(h@, to@);
            }
            let cur = h[i].1;
            let key = h[i].0.clone();
            proof {
                assert(key@ == h@[i as int].0@);
            }
            let ghost before = h@;
            h.set(i, (key, cur + amount));
            proof {
                assert(h@ =~= before.update(i as int, h@[i as int]));
                lemma_update(before, i as int, h@[i as int]);
            }
        },
        None => {
            let ghost before = h@;
            proof {
                lemma_balance_absent(before, to@);
            }
            let key = to.clone();
            proof {
                assert(key@ == to@);
            }
            h.push((key, amount));
            proof {
                assert(h@ =~= before.push(h@.last()));
                lemma_push(before, h@.last());
            }
        },
    }
}


/// Takes `amount` from the balance of `from`.
fn debit_holder(h: &mut Holders, from: &Vec<u8>, amount: u64)
    requires
        holders_unique(old(h)@),
        holder_balance(old(h)@, from@) >= amount,
    ensures
        holders_unique(final(h)@),
        holders_total(final(h)@) == holders_total(old(h)@) - amount,
        forall|q: Seq<u8>|
            holder_balance(final(h)@, q) == holder_balance(old(h)@, q) - if q == from@ {
                amount as int
            } else {
                0
            },
{
    match find_holder(h, from) {
        Some(i) => {
            proof {
                lemma_balance_at(h@, i as int);
            }
            let cur = h[i].1;
            let key = h[i].0.clone();
            let ghost before = h@;
            h.set(i, (key, cur - amount));
            proof {
                assert(h@ =~= before.update(i as int, h@[i as int]));
                lemma_update(before, i as int, h@[i as int]);
            }
        },
        None => {
            proof {
                lemma_balance_absent(h@, from@);
            }
        },
    }
}

proof fn lemma_all_zero(h: Seq<(Vec<u8>, u64)>)
    requires
        holders_total(h) == 0,
    ensures
        forall|q: Seq<u8>| holder_balance(h, q) == 0,
{
    assert forall|q: Seq<u8>| holder_balance(h, q) == 0 by {
        lemma_balance_le_total(h, q);
    }
}

/// Whether a swap is accepted, and if not, why.
pub open spec fn swap_check(p: PoolInfo, in0: u64, in1: u64, out0: u64, out1: u64) -> Result<
    (),
    PoolError,
> {
    let lhs = adjusted(p.reserve0 as int, in0 as int, out0 as int) * adjusted(p.reserve1 as int, in1 as int, out1 as int);
    let rhs = (p.reserve0 as int) * (p.reserve1 as int) * 1_000_000;
    if (out0 == 0) == (out1 == 0) {
        Err(PoolError::InsufficientOutputAmount)
    } else if out0 >= p.reserve0 || out1 >= p.reserve1 {
        Err(PoolError::InsufficientLiquidity)
    } else if (in0 == 0) == (in1 == 0) {
        Err(PoolError::InsufficientInputAmount)
    } else if p.reserve0 + in0 > u64::MAX || p.reserve1 + in1 > u64::MAX {
        Err(PoolError::Overflow)
    } else if lhs > u128::MAX && rhs > u128::MAX {
        Err(PoolError::Overflow)
    } else if lhs < rhs {
        Err(PoolError::InvalidK)
    } else {
        Ok(())
    }
}

/// Amounts paid out by burning `liquidity` held by `caller`, or why the burn
/// is refused.
pub open spec fn burn_check(
    p: PoolInfo,
    caller: Seq<u8>,
    liquidity: u64,
    min0: u64,
    min1: u64,
) -> Result<(int, int), PoolError> {
    if liquidity > holder_balance(p.holders@, caller) {
        Err(PoolError::NotEnoughLiquidity)
    } else if p.total_supply == 0 {
        Err(PoolError::InsufficientLiquidityBurned)
    } else {
        let a0 = (liquidity as int) * (p.reserve0 as int) / (p.total_supply as int);
        let a1 = (liquidity as int) * (p.reserve1 as int) / (p.total_supply as int);
        if a0 == 0 && a1 == 0 {
            Err(PoolError::InsufficientLiquidityBurned)
        } else if a0 < min0 {
            Err(PoolError::InsufficientAAmount)
        } else if a1 < min1 {
            Err(PoolError::InsufficientBAmount)
        } else {
            Ok((a0, a1))
        }
    }
}

impl PoolInfo {
    fn minted_liquidity(&self, amount0: u64, amount1: u64) -> (r: Result<u64, PoolError>)
        ensures
            r == match mint_liquidity(*self, amount0, amount1) {
                Ok(l) => Ok(l as u64),
                Err(e) => Err(e),
            },
            r matches Ok(l) ==> 0 < l,
            mint_liquidity(*self, amount0, amount1) matches Ok(l) ==> 0 < l <= u64::MAX,
    {
        if self.total_supply == 0 {
            proof {
                lemma_mul_u64_fits(amount0 as int, amount1 as int);
            }
            let s = sqrt_u128((amount0 as u128) * (amount1 as u128));
            if s <= MINIMUM_LIQUIDITY as u128 {
                Err(PoolError::InsufficientLiquidityMinted)
            } else {
                Ok((s - MINIMUM_LIQUIDITY as u128) as u64)
            }
        } else if self.reserve0 == 0 || self.reserve1 == 0 {
            Err(PoolError::InsufficientLiquidity)
        } else {
            let v0 = mul_div(amount0, self.total_supply, self.reserve0);
            let v1 = mul_div(amount1, self.total_supply, self.reserve1);
            let l: u64 = match (v0, v1) {
                (Some(x), Some(y)) => if x <= y { x } else { y },
                (Some(x), None) => x,
                (None, Some(y)) => y,
                (None, None) => { return Err(PoolError::Overflow); },
            };
            if l == 0 {
                Err(PoolError::InsufficientLiquidityMinted)
            } else {
                Ok(l)
            }
        }
    }

    /// Checks, before any funds move, that adding `(amount0, amount1)` would
    /// mint some liquidity.
    pub fn pre_mint(&self, amount0: u64, amount1: u64) -> (r: Result<(), PoolError>)
        ensures
            r == match mint_liquidity(*self, amount0, amount1) {
                Ok(_) => Ok(()),
                Err(e) => Err(e),
            },
    {
        match self.minted_liquidity(amount0, amount1) {
            Ok(_) => Ok(()),
            Err(e) => Err(e),
        }
    }

    /// Adds `(amount0, amount1)` to the reserves and mints liquidity to
    /// `receiver`. On the first mint, `service` receives the locked minimum.
    pub fn post_mint(&mut self, receiver: &Vec<u8>, amount0: u64, amount1: u64, service: &Vec<u8>) -> (r:
        Result<u64, PoolError>)
        requires
            old(self).wf(),
        ensures
            final(self).wf(),
            same_identity(*final(self), *old(self)),
            match mint_liquidity(*old(self), amount0, amount1) {
                Err(e) => r == Err::<u64, PoolError>(e) && *final(self) == *old(self),
                Ok(l) => {
                    let base = if old(self).total_supply == 0 {
                        MINIMUM_LIQUIDITY as int
                    } else {
                        old(self).total_supply as int
                    };
                    if old(self).reserve0 + amount0 > u64::MAX || old(self).reserve1 + amount1
                        > u64::MAX || base + l > u64::MAX {
                        r == Err::<u64, PoolError>(PoolError::Overflow) && *final(self) == *old(
                            self,
                        )
                    } else {
                        &&& r == Ok::<u64, PoolError>(l as u64)
                        &&& final(self).reserve0 == old(self).reserve0 + amount0
                        &&& final(self).reserve1 == old(self).reserve1 + amount1
                        &&& final(self).total_supply == base + l
                        &&& final(self).k_last == final(self).reserve0 * final(self).reserve1
                        &&& final(self).last_updated == old(self).last_updated
                        &&& forall|q: Seq<u8>|
                            holder_balance(final(self).holders@, q) == (if old(self).total_supply
                                == 0 {
                                if q == service@ {
                                    MINIMUM_LIQUIDITY as int
                                } else {
                                    0
                                }
                            } else {
                                holder_balance(old(self).holders@, q)
                            }) + (if q == receiver@ {
                                l
                            } else {
                                0
                            })
                    }
                },
            },
    {
        let liquidity = match self.minted_liquidity(amount0, amount1) {
            Ok(l) => l,
            Err(e) => { return Err(e); },
        };
        let base: u64 = if self.total_supply == 0 { MINIMUM_LIQUIDITY } else { self.total_supply };
        if amount0 > u64::MAX - self.reserve0 || amount1 > u64::MAX - self.reserve1 || liquidity
            > u64::MAX - base {
            return Err(PoolError::Overflow);
        }
        if self.total_supply == 0 {
            proof {
                lemma_all_zero(self.holders@);
            }
            credit_holder(&mut self.holders, service, MINIMUM_LIQUIDITY);
            self.total_supply = MINIMUM_LIQUIDITY;
        }
        self.reserve0 = self.reserve0 + amount0;
        self.reserve1 = self.reserve1 + amount1;
        credit_holder(&mut self.holders, receiver, liquidity);
        self.total_supply = self.total_supply + liquidity;
        proof {
            lemma_mul_u64_fits(self.reserve0 as int, self.reserve1 as int);
        }
        self.k_last = (self.reserve0 as u128) * (self.reserve1 as u128);
        Ok(liquidity)
    }

    /// Liquidity owed to the protocol-fee receiver before a burn.
    fn fee_liquidity(&self) -> (r: u64)
        ensures
            r == protocol_fee(*self),
            r <= self.total_supply,
    {
        if self.k_last == 0 {
            return 0;
        }
        proof {
            lemma_mul_u64_fits(self.reserve0 as int, self.reserve1 as int);
        }
        let rk = sqrt_u128((self.reserve0 as u128) * (self.reserve1 as u128));
        let rl = sqrt_u128(self.k_last);
        if rk > rl {
            proof {
                lemma_mul_u64_fits(self.total_supply as int, (rk - rl) as int);
            }
            let num: u128 = (self.total_supply as u128) * (rk - rl);
            let den: u128 = rk * 5 + rl;
            proof {
                assert(num <= (self.total_supply as int) * (den as int)) by (nonlinear_arith)
                    requires
                        num == (self.total_supply as int) * (rk - rl),
                        rk - rl <= den,
                        0 <= rk - rl,
                ;
                lemma_div_le(num as int, self.total_supply as int, den as int);
            }
            (num / den) as u64
        } else {
            0
        }
    }

    /// Burns `liquidity` of `caller`, first minting the protocol fee to
    /// `fee_receiver`, and takes the matching share of both reserves out.
    pub fn burn(
        &mut self,
        caller: &Vec<u8>,
        liquidity: u64,
        amount0_min: u64,
        amount1_min: u64,
        fee_receiver: &Vec<u8>,
        now: u64,
    ) -> (r: Result<BurnResult, PoolError>)
        requires
            old(self).wf(),
        ensures
            final(self).wf(),
            same_identity(*final(self), *old(self)),
            match burn_check(*old(self), caller@, liquidity, amount0_min, amount1_min) {
                Err(e) => r matches Err(x) && x == e && *final(self) == *old(self),
                Ok((a0, a1)) => {
                    let fee = protocol_fee(*old(self));
                    if old(self).total_supply + fee > u64::MAX {
                        r matches Err(x) && x == PoolError::Overflow && *final(self) == *old(self)
                    } else {
                        &&& r matches Ok(b) && b.amount0 == a0 && b.amount1 == a1 && b.token0
                            == old(self).token0 && b.token1 == old(self).token1
                            && b.raw_subaccount@ == old(self).allocated_raw_subaccount@
                        &&& final(self).reserve0 == old(self).reserve0 - a0
                        &&& final(self).reserve1 == old(self).reserve1 - a1
                        &&& final(self).total_supply == old(self).total_supply + fee - liquidity
                        &&& final(self).k_last == final(self).reserve0 * final(self).reserve1
                        &&& final(self).last_updated == now
                        &&& forall|q: Seq<u8>|
                            q != caller@ ==> holder_balance(final(self).holders@, q) >= holder_balance(
                                old(self).holders@,
                                q,
                            )
                        &&& forall|q: Seq<u8>|
                            holder_balance(final(self).holders@, q) == holder_balance(
                                old(self).holders@,
                                q,
                            ) + (if q == fee_receiver@ {
                                fee
                            } else {
                                0
                            }) - (if q == caller@ {
                                liquidity as int
                            } else {
                                0
                            })
                    }
                },
            },
    {
        let held = balance_of(&self.holders, caller);
        if liquidity > held {
            return Err(PoolError::NotEnoughLiquidity);
        }
        if self.total_supply == 0 {
            return Err(PoolError::InsufficientLiquidityBurned);
        }
        proof {
            lemma_balance_le_total(self.holders@, caller@);
            assert((liquidity as int) * (self.reserve0 as int) <= (self.reserve0 as int) * (
            self.total_supply as int)) by (nonlinear_arith)
                requires
                    liquidity <= self.total_supply,
                    0 <= self.reserve0,
            ;
            assert((liquidity as int) * (self.reserve1 as int) <= (self.reserve1 as int) * (
            self.total_supply as int)) by (nonlinear_arith)
                requires
                    liquidity <= self.total_supply,
                    0 <= self.reserve1,
            ;
            lemma_div_le(
                (liquidity as int) * (self.reserve0 as int),
                self.reserve0 as int,
                self.total_supply as int,
            );
            lemma_div_le(
                (liquidity as int) * (self.reserve1 as int),
                self.reserve1 as int,
                self.total_supply as int,
            );
        }
        let amount0 = match mul_div(liquidity, self.reserve0, self.total_supply) {
            Some(v) => v,
            None => { return Err(PoolError::Overflow); },
        };
        let amount1 = match mul_div(liquidity, self.reserve1, self.total_supply) {
            Some(v) => v,
            None => { return Err(PoolError::Overflow); },
        };
        if amount0 == 0 && amount1 == 0 {
            return Err(PoolError::InsufficientLiquidityBurned);
        }
        if amount0 < amount0_min {
            return Err(PoolError::InsufficientAAmount);
        }
        if amount1 < amount1_min {
            return Err(PoolError::InsufficientBAmount);
        }
        let fee = self.fee_liquidity();
        if fee > u64::MAX - self.total_supply {
            return Err(PoolError::Overflow);
        }
        if fee > 0 {
            credit_holder(&mut self.holders, fee_receiver, fee);
            self.total_supply = self.total_supply + fee;
        }
        proof {
            lemma_balance_le_total(self.holders@, caller@);
        }
        debit_holder(&mut self.holders, caller, liquidity);
        self.total_supply = self.total_supply - liquidity;
        self.reserve0 = self.reserve0 - amount0;
        self.reserve1 = self.reserve1 - amount1;
        self.last_updated = now;
        proof {
            lemma_mul_u64_fits(self.reserve0 as int, self.reserve1 as int);
        }
        self.k_last = (self.reserve0 as u128) * (self.reserve1 as u128);
        Ok(
            BurnResult {
                raw_subaccount: self.allocated_raw_subaccount.clone(),
                token0: self.token0,
                token1: self.token1,
                amount0,
                amount1,
            },
        )
    }

    /// Exchanges `amount0_in` / `amount1_in` against `amount0_out` /
    /// `amount1_out`, provided the fee-adjusted constant product holds.
    pub fn swap(&mut self, amount0_in: u64, amount1_in: u64, amount0_out: u64, amount1_out: u64, now: u64) -> (r:
        Result<SwapResult, PoolError>)
        requires
            old(self).wf(),
        ensures
            final(self).wf(),
            match swap_check(*old(self), amount0_in, amount1_in, amount0_out, amount1_out) {
                Err(e) => r matches Err(x) && x == e && *final(self) == *old(self),
                Ok(_) => {
                    &&& r matches Ok(s) && s.raw_subaccount@ == old(
                        self,
                    ).allocated_raw_subaccount@ && (if amount0_out > 0 {
                        s.token == old(self).token0 && s.amount == amount0_out
                    } else {
                        s.token == old(self).token1 && s.amount == amount1_out
                    })
                    &&& same_identity(*final(self), *old(self))
                    &&& final(self).reserve0 == old(self).reserve0 + amount0_in - amount0_out
                    &&& final(self).reserve1 == old(self).reserve1 + amount1_in - amount1_out
                    &&& final(self).last_updated == now
                    &&& final(self).total_supply == old(self).total_supply
                    &&& final(self).k_last == old(self).k_last
                    &&& final(self).holders == old(self).holders
                    &&& final(self).reserve0 * final(self).reserve1 >= old(self).reserve0 * old(
                        self,
                    ).reserve1
                },
            },
    {
        if (amount0_out == 0) == (amount1_out == 0) {
            return Err(PoolError::InsufficientOutputAmount);
        }
        if amount0_out >= self.reserve0 || amount1_out >= self.reserve1 {
            return Err(PoolError::InsufficientLiquidity);
        }
        if (amount0_in == 0) == (amount1_in == 0) {
            return Err(PoolError::InsufficientInputAmount);
        }
        if amount0_in > u64::MAX - self.reserve0 || amount1_in > u64::MAX - self.reserve1 {
            return Err(PoolError::Overflow);
        }
        let n0: u128 = (self.reserve0 as u128) + (amount0_in as u128) - (amount0_out as u128);
        let n1: u128 = (self.reserve1 as u128) + (amount1_in as u128) - (amount1_out as u128);
        let adj0: u128 = n0 * 1000 - (amount0_in as u128) * 3;
        let adj1: u128 = n1 * 1000 - (amount1_in as u128) * 3;
        proof {
            lemma_mul_u64_fits(self.reserve0 as int, self.reserve1 as int);
        }
        let rr: u128 = (self.reserve0 as u128) * (self.reserve1 as u128);
        match (adj0.checked_mul(adj1), rr.checked_mul(1_000_000)) {
            (Some(lhs), Some(rhs)) => {
                if lhs < rhs {
                    return Err(PoolError::InvalidK);
                }
            },
            (None, None) => { return Err(PoolError::Overflow); },
            (Some(_), None) => { return Err(PoolError::InvalidK); },
            (None, Some(_)) => {},
        }
        proof {
            let a0 = adj0 as int;
            let a1 = adj1 as int;
            let r0 = self.reserve0 as int;
            let r1 = self.reserve1 as int;
            assert(a0 * a1 >= r0 * r1 * 1_000_000);
            assert(0 <= a0 <= (n0 as int) * 1000 && 0 <= a1 <= (n1 as int) * 1000);
            assert(a0 * a1 <= ((n0 as int) * 1000) * ((n1 as int) * 1000)) by (nonlinear_arith)
                requires
                    0 <= a0 <= (n0 as int) * 1000,
                    0 <= a1 <= (n1 as int) * 1000,
            ;
            assert((n0 as int) * (n1 as int) >= r0 * r1) by (nonlinear_arith)
                requires
                    ((n0 as int) * 1000) * ((n1 as int) * 1000) >= r0 * r1 * 1_000_000,
            ;
        }
        self.reserve0 = self.reserve0 + amount0_in - amount0_out;
        self.reserve1 = self.reserve1 + amount1_in - amount1_out;
        self.last_updated = now;
        let (token, amount) = if amount0_out > 0 {
            (self.token0, amount0_out)
        } else {
            (self.token1, amount1_out)
        };
        Ok(SwapResult { raw_subaccount: self.allocated_raw_subaccount.clone(), token, amount })
    }
}

} // verus!
