use swap_backend::api::{
    add_liquidity_amounts, create_pair, remove_liquidity, swap_in_pool, swap_payment,
    AddLiquidityArgs, CreatePairArgs, Party, RemoveLiquidityArgs, SwapArgs,
};
use swap_backend::pool::{PoolError, PoolInfo, MINIMUM_LIQUIDITY};
use swap_backend::registry::{PoolState, RegistryError};
use swap_backend::types::{RuneId, TokenType};

fn rune() -> TokenType {
    TokenType::Runestone(RuneId { block: 840000, tx: 1 })
}

fn pool() -> PoolInfo {
    PoolInfo::new(0, 5, vec![7u8; 32], TokenType::Bitcoin, rune())
}

fn service() -> Vec<u8> {
    vec![1, 2, 3]
}

fn user() -> Vec<u8> {
    vec![9, 9]
}

fn holders_sum(p: &PoolInfo) -> u64 {
    p.holders.iter().map(|(_, v)| *v).sum()
}

#[test]
fn first_mint_locks_minimum_liquidity() {
    let mut p = pool();
    let l = p.post_mint(&user(), 100_000, 400_000, &service()).unwrap();
    assert_eq!(l, 199_000);
    assert_eq!(p.liquidity_of(&service()), MINIMUM_LIQUIDITY);
    assert_eq!(p.liquidity_of(&user()), 199_000);
    assert_eq!(p.total_supply, 200_000);
    assert_eq!(p.reserve0, 100_000);
    assert_eq!(p.reserve1, 400_000);
    assert_eq!(p.k_last, 40_000_000_000);
    assert_eq!(holders_sum(&p), p.total_supply);
}

#[test]
fn later_mint_takes_the_smaller_share() {
    let mut p = pool();
    p.post_mint(&user(), 100_000, 400_000, &service()).unwrap();
    let other = vec![4u8];
    let l = p.post_mint(&other, 10_000, 80_000, &service()).unwrap();
    // min(10_000 * 200_000 / 100_000, 80_000 * 200_000 / 400_000) = min(20_000, 40_000)
    assert_eq!(l, 20_000);
    assert_eq!(p.liquidity_of(&service()), MINIMUM_LIQUIDITY);
    assert_eq!(holders_sum(&p), p.total_supply);
}

#[test]
fn mint_too_small_is_refused() {
    let mut p = pool();
    assert_eq!(p.pre_mint(1000, 1000), Err(PoolError::InsufficientLiquidityMinted));
    assert_eq!(p.post_mint(&user(), 1000, 1000, &service()).err(), Some(PoolError::InsufficientLiquidityMinted));
    assert_eq!(p.total_supply, 0);
    assert_eq!(p.pre_mint(1001, 1001), Ok(()));
}

#[test]
fn mint_overflowing_reserves_is_refused() {
    let mut p = pool();
    p.post_mint(&user(), u64::MAX - 10, 4_000_000, &service()).unwrap();
    assert_eq!(p.post_mint(&user(), 3_000_000, 3_000_000, &service()).err(), Some(PoolError::Overflow));
}

#[test]
fn quotes_follow_the_reserves() {
    let mut p = pool();
    assert_eq!(p.quote_a(0), Err(PoolError::InsufficientInputAmount));
    assert_eq!(p.quote_a(5), Err(PoolError::InsufficientLiquidity));
    p.post_mint(&user(), 1_000_000, 2_000_000, &service()).unwrap();
    assert_eq!(p.quote_a(10), Ok(20));
    assert_eq!(p.quote_b(10), Ok(5));
    assert_eq!(p.quote_b(0), Err(PoolError::InsufficientInputAmount));
}

#[test]
fn amount_out_matches_the_formula() {
    let mut p = pool();
    p.post_mint(&user(), 1_000_000, 2_000_000, &service()).unwrap();
    // (10_000 * 997 * 2_000_000) / (1_000_000 * 1000 + 10_000 * 997)
    assert_eq!(p.get_amount_out(10_000, &TokenType::Bitcoin), Ok(19_743));
    assert_eq!(p.get_amount_out(10_000, &rune()), Ok(4_960));
    let empty = pool();
    assert_eq!(empty.get_amount_out(0, &TokenType::Bitcoin), Err(PoolError::InsufficientLiquidity));
}

#[test]
fn sort_tokens_aligns_with_token0() {
    let p = pool();
    assert_eq!(p.sort_tokens(&TokenType::Bitcoin, 5, 7), (5, 0, 0, 7));
    assert_eq!(p.sort_tokens(&rune(), 5, 7), (0, 7, 5, 0));
}

#[test]
fn constant_product_swap_keeps_k() {
    let mut p = pool();
    p.post_mint(&user(), 1_000_000, 2_000_000, &service()).unwrap();
    let k0 = p.reserve0 as u128 * p.reserve1 as u128;
    let args = SwapArgs { token_in: TokenType::Bitcoin, token_out: rune(), amount_in: 10_000, amount_out_min: 0 };
    let r = swap_in_pool(&mut p, &args, 99).unwrap();
    assert_eq!(r.amount, 19_743);
    assert_eq!(r.token, rune());
    assert_eq!(p.reserve0, 1_010_000);
    assert_eq!(p.reserve1, 2_000_000 - 19_743);
    assert_eq!(p.last_updated, 99);
    assert!(p.reserve0 as u128 * p.reserve1 as u128 >= k0);
    let back = SwapArgs { token_in: rune(), token_out: TokenType::Bitcoin, amount_in: 50_000, amount_out_min: 0 };
    let k1 = p.reserve0 as u128 * p.reserve1 as u128;
    swap_in_pool(&mut p, &back, 100).unwrap();
    assert!(p.reserve0 as u128 * p.reserve1 as u128 >= k1);
}

#[test]
fn swap_below_minimum_output_is_refused() {
    let mut p = pool();
    p.post_mint(&user(), 1_000_000, 2_000_000, &service()).unwrap();
    let args = SwapArgs { token_in: TokenType::Bitcoin, token_out: rune(), amount_in: 10_000, amount_out_min: 19_744 };
    assert_eq!(swap_in_pool(&mut p, &args, 1).err(), Some(PoolError::ExceedsAmountOutMin));
    assert_eq!(p.reserve0, 1_000_000);
    let same = SwapArgs { token_in: rune(), token_out: rune(), amount_in: 1, amount_out_min: 0 };
    assert_eq!(swap_in_pool(&mut p, &same, 1).err(), Some(PoolError::SameToken));
    let other = SwapArgs { token_in: TokenType::Icp, token_out: rune(), amount_in: 1, amount_out_min: 0 };
    assert_eq!(swap_in_pool(&mut p, &other, 1).err(), Some(PoolError::UnknownToken));
}

#[test]
fn swap_checks_in_order() {
    let mut p = pool();
    p.post_mint(&user(), 1_000_000, 2_000_000, &service()).unwrap();
    assert_eq!(p.swap(10, 0, 0, 0, 1).err(), Some(PoolError::InsufficientOutputAmount));
    assert_eq!(p.swap(10, 0, 5, 5, 1).err(), Some(PoolError::InsufficientOutputAmount));
    assert_eq!(p.swap(10, 0, 0, 2_000_000, 1).err(), Some(PoolError::InsufficientLiquidity));
    assert_eq!(p.swap(0, 0, 0, 5, 1).err(), Some(PoolError::InsufficientInputAmount));
    assert_eq!(p.swap(10, 10, 0, 5, 1).err(), Some(PoolError::InsufficientInputAmount));
    assert_eq!(p.swap(10, 0, 0, 1_000, 1).err(), Some(PoolError::InvalidK));
    assert_eq!(p.swap(10_000, 0, 0, 19_744, 1).err(), Some(PoolError::InvalidK));
    assert_eq!(p.reserve1, 2_000_000);
    let r = p.swap(10_000, 0, 0, 19_743, 1).unwrap();
    assert_eq!(r.amount, 19_743);
}

#[test]
fn swap_overflowing_reserve_is_refused() {
    let mut p = pool();
    p.post_mint(&user(), 1_000_000, 2_000_000, &service()).unwrap();
    assert_eq!(p.swap(u64::MAX, 0, 0, 5, 1).err(), Some(PoolError::Overflow));
}

#[test]
fn burn_pays_out_a_share_and_keeps_the_lock() {
    let mut p = pool();
    p.post_mint(&user(), 100_000, 400_000, &service()).unwrap();
    let fee_to = vec![5u8];
    let b = p.burn(&user(), 100_000, 0, 0, &fee_to, 7).unwrap();
    // 100_000 * 100_000 / 200_000 and 100_000 * 400_000 / 200_000
    assert_eq!(b.amount0, 50_000);
    assert_eq!(b.amount1, 200_000);
    assert_eq!(b.token0, TokenType::Bitcoin);
    assert_eq!(p.total_supply, 100_000);
    assert_eq!(p.liquidity_of(&service()), MINIMUM_LIQUIDITY);
    assert_eq!(p.liquidity_of(&fee_to), 0);
    assert_eq!(p.k_last, 50_000 * 200_000);
    assert_eq!(holders_sum(&p), p.total_supply);
}

#[test]
fn burn_mints_protocol_fee_after_growth() {
    let mut p = pool();
    p.post_mint(&user(), 1_000_000, 1_000_000, &service()).unwrap();
    // grow the reserves through swaps without touching k_last
    p.swap(1_000_000, 0, 0, 100_000, 1).unwrap();
    let fee_to = vec![5u8];
    // rk = isqrt(2_000_000 * 900_000) = 1_341_640, rl = 1_000_000
    // fee = 1_000_000 * 341_640 / (5 * 1_341_640 + 1_000_000) = 44_321
    p.burn(&user(), 1000, 0, 0, &fee_to, 2).unwrap();
    assert_eq!(p.liquidity_of(&fee_to), 44_321);
    assert_eq!(p.total_supply, 1_000_000 + 44_321 - 1000);
    assert_eq!(holders_sum(&p), p.total_supply);
}

#[test]
fn burn_errors() {
    let mut p = pool();
    p.post_mint(&user(), 100_000, 400_000, &service()).unwrap();
    let f = vec![5u8];
    assert_eq!(p.burn(&user(), 199_001, 0, 0, &f, 1).err(), Some(PoolError::NotEnoughLiquidity));
    assert_eq!(p.burn(&user(), 0, 0, 0, &f, 1).err(), Some(PoolError::InsufficientLiquidityBurned));
    assert_eq!(p.burn(&user(), 1000, 501, 0, &f, 1).err(), Some(PoolError::InsufficientAAmount));
    assert_eq!(p.burn(&user(), 1000, 0, 2001, &f, 1).err(), Some(PoolError::InsufficientBAmount));
    assert_eq!(p.total_supply, 200_000);
}

#[test]
fn add_liquidity_uses_optimal_amounts() {
    let mut p = pool();
    let args = AddLiquidityArgs {
        token0: rune(),
        token1: TokenType::Bitcoin,
        amount0_min: 0,
        amount1_min: 0,
        amount0_desired: 400_000,
        amount1_desired: 100_000,
    };
    assert_eq!(add_liquidity_amounts(&p, &args), Ok((100_000, 400_000)));
    p.post_mint(&user(), 100_000, 400_000, &service()).unwrap();
    let more = AddLiquidityArgs {
        token0: TokenType::Bitcoin,
        token1: rune(),
        amount0_min: 0,
        amount1_min: 0,
        amount0_desired: 10_000,
        amount1_desired: 100_000,
    };
    assert_eq!(add_liquidity_amounts(&p, &more), Ok((10_000, 40_000)));
    let b_side = AddLiquidityArgs { amount1_desired: 20_000, ..more };
    assert_eq!(add_liquidity_amounts(&p, &b_side), Ok((5_000, 20_000)));
    let b_min = AddLiquidityArgs { amount1_min: 50_000, ..more };
    assert_eq!(add_liquidity_amounts(&p, &b_min), Err(PoolError::InsufficientBAmount));
    let a_min = AddLiquidityArgs { amount1_desired: 20_000, amount0_min: 6_000, ..more };
    assert_eq!(add_liquidity_amounts(&p, &a_min), Err(PoolError::InsufficientAAmount));
    let same = AddLiquidityArgs { token1: TokenType::Bitcoin, ..more };
    assert_eq!(add_liquidity_amounts(&p, &same), Err(PoolError::SameToken));
}

#[test]
fn remove_liquidity_reads_minimums_in_argument_order() {
    let mut p = pool();
    p.post_mint(&user(), 100_000, 400_000, &service()).unwrap();
    let args = RemoveLiquidityArgs { token0: rune(), token1: TokenType::Bitcoin, amount0_min: 200_000, amount1_min: 50_000, liquidity: 100_000 };
    let b = remove_liquidity(&mut p, &args, &user(), &vec![5u8], 3).unwrap();
    assert_eq!((b.amount0, b.amount1), (50_000, 200_000));
    let same = RemoveLiquidityArgs { token1: rune(), ..args };
    assert_eq!(remove_liquidity(&mut p, &same, &user(), &vec![5u8], 3).err(), Some(PoolError::SameToken));
}

#[test]
fn pair_lookup_ignores_order() {
    let mut s = PoolState::new();
    let a = CreatePairArgs { token0: TokenType::Bitcoin, token1: rune() };
    let id = create_pair(&mut s, &a, 11, &service()).unwrap();
    assert_eq!(id, 0);
    assert_eq!(s.get_pool_id_by_tokens(&TokenType::Bitcoin, &rune()), Some(0));
    assert_eq!(s.get_pool_id_by_tokens(&rune(), &TokenType::Bitcoin), Some(0));
    assert_eq!(s.get_pool_id_by_tokens(&TokenType::Icp, &rune()), None);
    let reversed = CreatePairArgs { token0: rune(), token1: TokenType::Bitcoin };
    assert_eq!(create_pair(&mut s, &reversed, 12, &service()), Err(RegistryError::PairExists));
    let same = CreatePairArgs { token0: TokenType::Icp, token1: TokenType::Icp };
    assert_eq!(create_pair(&mut s, &same, 12, &service()), Err(RegistryError::SameToken));
    let b = CreatePairArgs { token0: TokenType::Icp, token1: TokenType::CkBTC };
    assert_eq!(create_pair(&mut s, &b, 13, &service()), Ok(1));
    assert_eq!(s.get_pool_id_by_tokens(&TokenType::CkBTC, &TokenType::Icp), Some(1));
    assert_eq!(s.pool_mapping[1].created_at, 13);
    assert_eq!(s.pool_mapping[1].allocated_raw_subaccount.len(), 32);
    assert_ne!(s.pool_mapping[0].allocated_raw_subaccount, s.pool_mapping[1].allocated_raw_subaccount);
}

#[test]
fn error_messages() {
    assert_eq!(PoolError::InvalidK.message(), "Invalid K");
    assert_eq!(PoolError::InsufficientLiquidityMinted.message(), "INSUFFICIENT LIQUIDITY MINTED");
    assert_eq!(PoolError::NotEnoughLiquidity.message(), "Not enough Liquidity");
}

#[test]
fn swap_payment_assigns_roles_by_direction() {
    let caller = Party { address: "caller".to_string(), script: vec![1] };
    let pool_party = Party { address: "pool".to_string(), script: vec![2] };
    let buy = swap_payment(TokenType::Bitcoin, rune(), 10_000, 19_743, &caller, &pool_party, 2000, &vec![3]).unwrap();
    assert_eq!(buy.rune_sender, "pool");
    assert_eq!(buy.rune_receiver_script, vec![1]);
    assert_eq!(buy.rune_amount, 19_743);
    assert_eq!(buy.bitcoin_sender, "caller");
    assert_eq!(buy.btc_amount, 10_000);
    assert_eq!(buy.fee_payer, "caller");
    let sell = swap_payment(rune(), TokenType::Bitcoin, 600, 5_000, &caller, &pool_party, 2000, &vec![3]).unwrap();
    assert_eq!(sell.rune_sender, "caller");
    assert_eq!(sell.bitcoin_sender, "pool");
    assert_eq!(sell.bitcoin_receiver_script, vec![1]);
    assert!(swap_payment(TokenType::Icp, rune(), 1, 1, &caller, &pool_party, 2000, &vec![3]).is_none());
}

#[test]
fn swap_that_would_shrink_the_product_is_refused() {
    let mut p = pool();
    p.post_mint(&user(), 1000, 1000 * 1000, &service()).unwrap();
    let mut q = PoolInfo::new(1, 5, vec![7u8; 32], TokenType::Bitcoin, rune());
    q.post_mint(&user(), 1000 * 1000, 1000 * 1000, &service()).unwrap();
    let mut small = pool();
    small.post_mint(&user(), 2000, 2000, &service()).unwrap();
    // 2000/2000 reserves: 10 in and 1999 out would leave 2010 * 1
    assert_eq!(small.swap(10, 0, 0, 1999, 1).err(), Some(PoolError::InvalidK));
    let k0 = q.reserve0 as u128 * q.reserve1 as u128;
    q.swap(1000, 0, 0, 996, 1).unwrap();
    assert!(q.reserve0 as u128 * q.reserve1 as u128 >= k0);
    assert_eq!(p.reserve0, 1000);
}
