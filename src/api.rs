//! The decisions of the user-facing flows that need no external call: pool creation, liquidity amounts, removal and swaps.

use vstd::prelude::*;

use crate::address::{generate_subaccount_for_pool, pool_subaccount_preimage, sha3_256_of};
use crate::pool::{
    amount_out_value, burn_check, mint_liquidity, protocol_fee, quote_value, swap_check, BurnResult, PoolError,
    PoolInfo, SwapResult as PoolSwapResult,
};
use crate::combined_transfer::CombinedTransactionArgs;
use crate::registry::{PoolState, RegistryError};
use crate::types::{tokens_equal, SubmittedTxidType, TokenType};

verus! {

/// Request to create the pool of a token pair.
#[derive(Clone, Copy, Debug)]
pub struct CreatePairArgs {
    pub token0: TokenType,
    pub token1: TokenType,
}

/// Request to add liquidity to the pool of `{token0, token1}`.
#[derive(Clone, Copy, Debug)]
pub struct AddLiquidityArgs {
    pub token0: TokenType,
    pub token1: TokenType,
    pub amount0_min: u64,
    pub amount1_min: u64,
    pub amount0_desired: u64,
    pub amount1_desired: u64,
}

/// Request to take liquidity out of the pool of `{token0, token1}`.
#[derive(Clone, Copy, Debug)]
pub struct RemoveLiquidityArgs {
    pub token0: TokenType,
    pub token1: TokenType,
    pub amount0_min: u64,
    pub amount1_min: u64,
    pub liquidity: u64,
}

/// Request to swap `amount_in` of `token_in` for at least `amount_out_min`
/// of `token_out`.
#[derive(Clone, Copy, Debug)]
pub struct SwapArgs {
    pub token_in: TokenType,
    pub token_out: TokenType,
    pub amount_in: u64,
    pub amount_out_min: u64,
}

/// What a swap paid out, and the transactions that moved the funds.
pub struct SwapResult {
    pub amount_out: u64,
    pub txids: Vec<SubmittedTxidType>,
}

/// Creates the pool of the pair in `args`, created at `now`, whose deposit
/// subaccount derives from its id, `now` and the principal `service`.
pub fn create_pair(state: &mut PoolState, args: &CreatePairArgs, now: u64, service: &Vec<u8>) -> (r:
    Result<u128, RegistryError>)
    requires
        old(state).wf(),
    ensures
        final(state).wf(),
        r is Ok <==> (args.token0 != args.token1 && old(state).lookup(args.token0, args.token1).is_none()
            && old(state).pool_mapping@.len() < u128::MAX),
        args.token0 == args.token1 ==> r == Err::<u128, RegistryError>(RegistryError::SameToken),
        args.token0 != args.token1 && old(state).lookup(args.token0, args.token1).is_some() ==> r
            == Err::<u128, RegistryError>(RegistryError::PairExists),
        r is Err ==> *final(state) == *old(state),
        r matches Ok(id) ==> {
            &&& id == old(state).pool_mapping@.len()
            &&& final(state).pool_mapping@.len() == id + 1
            &&& final(state).lookup(args.token0, args.token1) == Some(id)
            &&& final(state).lookup(args.token1, args.token0) == Some(id)
            &&& final(state).pool_mapping@[id as int].token0 == args.token0
            &&& final(state).pool_mapping@[id as int].token1 == args.token1
            &&& final(state).pool_mapping@[id as int].created_at == now
            &&& final(state).pool_mapping@[id as int].reserve0 == 0
            &&& final(state).pool_mapping@[id as int].reserve1 == 0
            &&& final(state).pool_mapping@[id as int].total_supply == 0
            &&& final(state).pool_mapping@[id as int].k_last == 0
            &&& final(state).pool_mapping@[id as int].holders@.len() == 0
            &&& final(state).pool_mapping@[id as int].allocated_raw_subaccount@ == sha3_256_of(
                pool_subaccount_preimage(id, now, service@),
            )
        },
{
    if tokens_equal(&args.token0, &args.token1) {
        return Err(RegistryError::SameToken);
    }
    if state.get_pool_id_by_tokens(&args.token0, &args.token1).is_some() {
        return Err(RegistryError::PairExists);
    }
    let id = state.pool_count();
    if id == u128::MAX {
        return Err(RegistryError::Overflow);
    }
    let subaccount = generate_subaccount_for_pool(id, now, service);
    state.create_pair(args.token0, args.token1, now, subaccount)
}

/// The amounts, in the pool's token order, that an add of `(d0, d1)` with
/// minimums `(m0, m1)` deposits: the desired amounts into an empty pool,
/// otherwise the largest pair at the current price within the desired ones.
pub open spec fn optimal_amounts(p: PoolInfo, d0: u64, d1: u64, m0: u64, m1: u64) -> Result<
    (u64, u64),
    PoolError,
> {
    if p.reserve0 == 0 && p.reserve1 == 0 {
        Ok((d0, d1))
    } else {
        match quote_value(d0, p.reserve1, p.reserve0) {
            Err(e) => Err(e),
            Ok(a1) => if a1 <= d1 {
                if a1 < m1 {
                    Err(PoolError::InsufficientBAmount)
                } else {
                    Ok((d0, a1))
                }
            } else {
                match quote_value(d1, p.reserve0, p.reserve1) {
                    Err(e) => Err(e),
                    Ok(a0) => if a0 > d0 {
                        Err(PoolError::ExcessiveInputAmount)
                    } else if a0 < m0 {
                        Err(PoolError::InsufficientAAmount)
                    } else {
                        Ok((a0, d1))
                    },
                }
            },
        }
    }
}

/// The amounts, in the pool's token order, that `args` deposits into
/// `pool`; checked to mint some liquidity.
pub open spec fn add_liquidity_outcome(pool: PoolInfo, args: AddLiquidityArgs) -> Result<(u64, u64), PoolError> {
    if args.token0 == args.token1 {
        Err(PoolError::SameToken)
    } else if !((args.token0 == pool.token0 && args.token1 == pool.token1) || (args.token0 == pool.token1
        && args.token1 == pool.token0)) {
        Err(PoolError::UnknownToken)
    } else {
        let flip = args.token0 != pool.token0;
        let (d0, d1, m0, m1) = if flip {
            (args.amount1_desired, args.amount0_desired, args.amount1_min, args.amount0_min)
        } else {
            (args.amount0_desired, args.amount1_desired, args.amount0_min, args.amount1_min)
        };
        match optimal_amounts(pool, d0, d1, m0, m1) {
            Err(e) => Err(e),
            Ok((a0, a1)) => match mint_liquidity(pool, a0, a1) {
                Err(e) => Err(e),
                Ok(_) => Ok((a0, a1)),
            },
        }
    }
}

/// How much of each token an add of liquidity deposits, in the pool's token
/// order, before any funds move.
pub fn add_liquidity_amounts(pool: &PoolInfo, args: &AddLiquidityArgs) -> (r: Result<(u64, u64), PoolError>)
    ensures
        r == add_liquidity_outcome(*pool, *args),
{
    if tokens_equal(&args.token0, &args.token1) {
        return Err(PoolError::SameToken);
    }
    let straight = tokens_equal(&args.token0, &pool.token0) && tokens_equal(&args.token1, &pool.token1);
    let flipped = tokens_equal(&args.token0, &pool.token1) && tokens_equal(&args.token1, &pool.token0);
    if !straight && !flipped {
        return Err(PoolError::UnknownToken);
    }
    let flip = !tokens_equal(&args.token0, &pool.token0);
    let (d0, d1, m0, m1) = if flip {
        (args.amount1_desired, args.amount0_desired, args.amount1_min, args.amount0_min)
    } else {
        (args.amount0_desired, args.amount1_desired, args.amount0_min, args.amount1_min)
    };
    let (a0, a1) = if pool.is_reserve_empty() {
        (d0, d1)
    } else {
        let a1_opt = match pool.quote_a(d0) {
            Ok(v) => v,
            Err(e) => { return Err(e); },
        };
        if a1_opt <= d1 {
            if a1_opt < m1 {
                return Err(PoolError::InsufficientBAmount);
            }
            (d0, a1_opt)
        } else {
            let a0_opt = match pool.quote_b(d1) {
                Ok(v) => v,
                Err(e) => { return Err(e); },
            };
            if a0_opt > d0 {
                return Err(PoolError::ExcessiveInputAmount);
            }
            if a0_opt < m0 {
                return Err(PoolError::InsufficientAAmount);
            }
            (a0_opt, d1)
        }
    };
    match pool.pre_mint(a0, a1) {
        Ok(_) => Ok((a0, a1)),
        Err(e) => Err(e),
    }
}

/// Burns `args.liquidity` of `caller` in `pool`; the minimums are read in
/// the order of `args`' tokens.
pub fn remove_liquidity(
    pool: &mut PoolInfo,
    args: &RemoveLiquidityArgs,
    caller: &Vec<u8>,
    fee_receiver: &Vec<u8>,
    now: u64,
) -> (r: Result<BurnResult, PoolError>)
    requires
        old(pool).wf(),
    ensures
        final(pool).wf(),
        args.token0 == args.token1 ==> (r matches Err(e) && e == PoolError::SameToken && *final(pool) == *old(pool)),
        args.token0 != args.token1 && !((args.token0 == old(pool).token0 && args.token1 == old(pool).token1)
            || (args.token0 == old(pool).token1 && args.token1 == old(pool).token0)) ==> (r matches Err(e)
            && e == PoolError::UnknownToken && *final(pool) == *old(pool)),
        args.token0 != args.token1 && ((args.token0 == old(pool).token0 && args.token1 == old(pool).token1)
            || (args.token0 == old(pool).token1 && args.token1 == old(pool).token0)) ==> {
            let straight = args.token0 == old(pool).token0;
            let m0 = if straight { args.amount0_min } else { args.amount1_min };
            let m1 = if straight { args.amount1_min } else { args.amount0_min };
            match burn_check(*old(pool), caller@, args.liquidity, m0, m1) {
                Err(e) => r matches Err(x) && x == e,
                Ok((a0, a1)) => if old(pool).total_supply + protocol_fee(*old(pool)) > u64::MAX {
                    r matches Err(x) && x == PoolError::Overflow
                } else {
                    &&& r matches Ok(b) && b.amount0 == a0 && b.amount1 == a1
                    &&& final(pool).reserve0 == old(pool).reserve0 - a0
                    &&& final(pool).reserve1 == old(pool).reserve1 - a1
                    &&& final(pool).total_supply == old(pool).total_supply + protocol_fee(*old(pool))
                        - args.liquidity
                },
            }
        },
        r is Err ==> *final(pool) == *old(pool),
{
    if tokens_equal(&args.token0, &args.token1) {
        return Err(PoolError::SameToken);
    }
    let straight = tokens_equal(&args.token0, &pool.token0) && tokens_equal(&args.token1, &pool.token1);
    let flipped = tokens_equal(&args.token0, &pool.token1) && tokens_equal(&args.token1, &pool.token0);
    if !straight && !flipped {
        return Err(PoolError::UnknownToken);
    }
    let (m0, m1) = if straight {
        (args.amount0_min, args.amount1_min)
    } else {
        (args.amount1_min, args.amount0_min)
    };
    pool.burn(caller, args.liquidity, m0, m1, fee_receiver, now)
}

proof fn lemma_quoted_swap_grows_k(rin: int, rout: int, ain: int, out: int)
    requires
        rin >= 0,
        rout >= 0,
        ain > 0,
        out == amount_out_value(ain, rin, rout),
    ensures
        0 <= out <= rout,
        (rin + ain) * (rout - out) >= rin * rout,
{
    let den = rin * 1000 + ain * 997;
    let num = ain * 997 * rout;
    assert(den > 0);
    vstd::arithmetic::div_mod::lemma_fundamental_div_mod(num, den);
    vstd::arithmetic::div_mod::lemma_mod_bound(num, den);
    assert(num >= 0) by (nonlinear_arith)
        requires
            ain > 0,
            rout >= 0,
            num == ain * 997 * rout,
    ;
    assert(den * out <= num);
    assert(out >= 0) by (nonlinear_arith)
        requires
            num == den * out + num % den,
            num % den < den,
            num >= 0,
            den > 0,
    ;
    assert(out <= rout) by (nonlinear_arith)
        requires
            den * out <= num,
            num == ain * 997 * rout,
            den >= ain * 997,
            den > 0,
            rout >= 0,
    ;
    assert((rout - out) * den >= 1000 * rin * rout) by (nonlinear_arith)
        requires
            den * out <= num,
            num == ain * 997 * rout,
            den == rin * 1000 + ain * 997,
    ;
    assert(1000 * ((rin + ain) * (rout - out)) >= (rout - out) * den) by (nonlinear_arith)
        requires
            den == rin * 1000 + ain * 997,
            rout - out >= 0,
            ain > 0,
    ;
    assert(1000 * rin * rout == 1000 * (rin * rout)) by (nonlinear_arith);
    let x = (rin + ain) * (rout - out);
    let y = rin * rout;
    assert(1000 * x >= 1000 * y);
}

/// Whether a swap of `args` in pool `p` at the quoted amount goes through:
/// the tokens are the pool's pair, something comes in, the quote is
/// computable and meets the minimum, and the pool accepts the exchange.
pub open spec fn swap_accepted(p: PoolInfo, args: SwapArgs) -> bool {
    let zero_for_one = args.token_in == p.token0;
    let (rin, rout) = if zero_for_one {
        (p.reserve0 as int, p.reserve1 as int)
    } else {
        (p.reserve1 as int, p.reserve0 as int)
    };
    let out = amount_out_value(args.amount_in as int, rin, rout);
    &&& (args.token_in == p.token0 && args.token_out == p.token1) || (args.token_in == p.token1
        && args.token_out == p.token0)
    &&& args.amount_in > 0
    &&& args.amount_in * 997 * rout <= u128::MAX
    &&& out >= args.amount_out_min
    &&& if zero_for_one {
        swap_check(p, args.amount_in, 0, 0, out as u64) is Ok
    } else {
        swap_check(p, 0, args.amount_in, out as u64, 0) is Ok
    }
}

/// Swaps `args.amount_in` of `args.token_in` in `pool` for the quoted amount
/// of the other token, refused below `args.amount_out_min`. A swap that goes
/// through never lowers the product of the reserves.
pub fn swap_in_pool(pool: &mut PoolInfo, args: &SwapArgs, now: u64) -> (r: Result<PoolSwapResult, PoolError>)
    requires
        old(pool).wf(),
    ensures
        final(pool).wf(),
        r is Err ==> *final(pool) == *old(pool),
        args.token_in == args.token_out ==> (r matches Err(e) && e == PoolError::SameToken),
        r is Ok <==> swap_accepted(*old(pool), *args),
        r matches Ok(s) ==> {
            let zero_for_one = args.token_in == old(pool).token0;
            let (rin, rout) = if zero_for_one {
                (old(pool).reserve0 as int, old(pool).reserve1 as int)
            } else {
                (old(pool).reserve1 as int, old(pool).reserve0 as int)
            };
            &&& s.amount == amount_out_value(args.amount_in as int, rin, rout)
            &&& s.amount >= args.amount_out_min
            &&& s.token == args.token_out
            &&& zero_for_one ==> final(pool).reserve0 == old(pool).reserve0 + args.amount_in
                && final(pool).reserve1 == old(pool).reserve1 - s.amount
            &&& !zero_for_one ==> final(pool).reserve1 == old(pool).reserve1 + args.amount_in
                && final(pool).reserve0 == old(pool).reserve0 - s.amount
            &&& final(pool).reserve0 * final(pool).reserve1 >= old(pool).reserve0 * old(pool).reserve1
        },
{
    if tokens_equal(&args.token_in, &args.token_out) {
        return Err(PoolError::SameToken);
    }
    let straight = tokens_equal(&args.token_in, &pool.token0) && tokens_equal(&args.token_out, &pool.token1);
    let flipped = tokens_equal(&args.token_in, &pool.token1) && tokens_equal(&args.token_out, &pool.token0);
    if !straight && !flipped {
        return Err(PoolError::UnknownToken);
    }
    if args.amount_in == 0 {
        return Err(PoolError::InsufficientInputAmount);
    }
    let amount_out = match pool.get_amount_out(args.amount_in, &args.token_in) {
        Ok(v) => v,
        Err(e) => { return Err(e); },
    };
    if amount_out < args.amount_out_min {
        return Err(PoolError::ExceedsAmountOutMin);
    }
    let ghost before = *pool;
    let (a0_in, a0_out, a1_in, a1_out) = pool.sort_tokens(&args.token_in, args.amount_in, amount_out);
    let res = pool.swap(a0_in, a1_in, a0_out, a1_out, now);
    proof {
        if res is Ok {
            if straight {
                lemma_quoted_swap_grows_k(before.reserve0 as int, before.reserve1 as int, args.amount_in as int, amount_out as int);
            } else {
                lemma_quoted_swap_grows_k(before.reserve1 as int, before.reserve0 as int, args.amount_in as int, amount_out as int);
                assert(before.reserve0 * before.reserve1 == before.reserve1 * before.reserve0) by (nonlinear_arith);
                assert(pool.reserve0 * pool.reserve1 == pool.reserve1 * pool.reserve0) by (nonlinear_arith);
            }
        }
    }
    res
}

/// Nothing to report about pools beyond what their queries return.
pub fn get_pool_info() {
}


/// An address of the service, with the script that pays to it.
pub struct Party {
    pub address: String,
    pub script: Vec<u8>,
}

/// The transfer that settles a swap between bitcoin and a rune: what comes
/// in goes from `caller` to `pool`, what goes out from `pool` to `caller`,
/// and `caller` pays the fee. `None` unless one side is bitcoin and the
/// other a rune.
pub fn swap_payment(
    token_in: TokenType,
    token_out: TokenType,
    amount_in: u64,
    amount_out: u64,
    caller: &Party,
    pool: &Party,
    fee_per_vbytes: u64,
    signer_pubkey: &Vec<u8>,
) -> (r: Option<CombinedTransactionArgs>)
    ensures
        r is Some <==> match (token_in, token_out) {
            (TokenType::Bitcoin, TokenType::Runestone(_)) => true,
            (TokenType::Runestone(_), TokenType::Bitcoin) => true,
            _ => false,
        },
        r matches Some(c) ==> {
            let (rune_from, rune_to, btc_from, btc_to) = if token_in == TokenType::Bitcoin {
                (pool, caller, caller, pool)
            } else {
                (caller, pool, pool, caller)
            };
            &&& token_in == TokenType::Bitcoin ==> c.rune_amount == amount_out && c.btc_amount
                == amount_in && token_out == TokenType::Runestone(c.runeid)
            &&& token_in != TokenType::Bitcoin ==> c.rune_amount == amount_in && c.btc_amount
                == amount_out && token_in == TokenType::Runestone(c.runeid)
            &&& c.rune_sender@ == rune_from.address@ && c.rune_sender_script@ == rune_from.script@
            &&& c.rune_receiver_script@ == rune_to.script@
            &&& c.bitcoin_sender@ == btc_from.address@ && c.bitcoin_sender_script@ == btc_from.script@
            &&& c.bitcoin_receiver_script@ == btc_to.script@
            &&& c.fee_payer@ == caller.address@ && c.fee_payer_script@ == caller.script@
            &&& c.postage is None
            &&& c.fee_per_vbytes == fee_per_vbytes
            &&& c.signer_pubkey@ == signer_pubkey@
        },
{
    let (runeid, buying_rune) = match (token_in, token_out) {
        (TokenType::Bitcoin, TokenType::Runestone(r)) => (r, true),
        (TokenType::Runestone(r), TokenType::Bitcoin) => (r, false),
        _ => { return None; },
    };
    let (rune_from, rune_to, btc_from, btc_to, rune_amount, btc_amount) = if buying_rune {
        (pool, caller, caller, pool, amount_out as u128, amount_in)
    } else {
        (caller, pool, pool, caller, amount_in as u128, amount_out)
    };
    Some(
        CombinedTransactionArgs {
            runeid,
            rune_amount,
            rune_sender: rune_from.address.clone(),
            rune_sender_script: rune_from.script.clone(),
            rune_receiver_script: rune_to.script.clone(),
            btc_amount,
            bitcoin_sender: btc_from.address.clone(),
            bitcoin_sender_script: btc_from.script.clone(),
            bitcoin_receiver_script: btc_to.script.clone(),
            fee_payer: caller.address.clone(),
            fee_payer_script: caller.script.clone(),
            postage: None,
            fee_per_vbytes,
            signer_pubkey: signer_pubkey.clone(),
        },
    )
}

} // verus!
