use crate::address::Address;
use vstd::prelude::*;

verus! {

/// The fee tier and tick spacing shared by the pools created under it.
#[derive(Clone, Copy, Debug, PartialEq, Eq)]
pub struct AmmConfig {
    pub bump: u8,
    pub index: u16,
    pub owner: Address,
    pub protocol_fee_rate: u32,
    pub trade_fee_rate: u32,
    pub tick_spacing: u16,
    pub fund_fee_rate: u32,
    pub fund_owner: Address,
}

/// A snapshot of a pool: its mints and vaults, its price, and the bitmap of
/// the tick arrays around price one that hold liquidity.
#[derive(Clone, Copy, Debug, PartialEq, Eq)]
pub struct PoolState {
    pub bump: u8,
    pub amm_config: Address,
    pub owner: Address,
    pub token_mint_0: Address,
    pub token_mint_1: Address,
    pub token_vault_0: Address,
    pub token_vault_1: Address,
    pub observation_key: Address,
    pub mint_decimals_0: u8,
    pub mint_decimals_1: u8,
    pub tick_spacing: u16,
    pub liquidity: u128,
    pub sqrt_price_x64: u128,
    pub tick_current: i32,
    pub tick_array_bitmap: [u64; 16],
}

/// The bitmap of the tick arrays that lie beyond the reach of the pool's own bitmap.
#[derive(Clone, Copy, Debug, PartialEq, Eq)]
pub struct TickArrayBitmapExtension {
    pub pool_id: Address,
    pub positive_tick_array_bitmap: [[u64; 8]; 14],
    pub negative_tick_array_bitmap: [[u64; 8]; 14],
}

/// One price tick: the liquidity that begins or ends there.
#[derive(Clone, Copy, Debug, PartialEq, Eq)]
pub struct TickState {
    pub tick: i32,
    pub liquidity_net: i128,
    pub liquidity_gross: u128,
}

/// A block of sixty consecutive ticks of one pool. Its start tick is a
/// multiple of sixty times the pool's tick spacing.
#[derive(Clone, Copy, Debug, PartialEq, Eq)]
pub struct TickArrayState {
    pub pool_id: Address,
    pub start_tick_index: i32,
    pub ticks: [TickState; 60],
    pub initialized_tick_count: u8,
}

/// A liquidity position, owned through the token of its mint.
#[derive(Clone, Copy, Debug, PartialEq, Eq)]
pub struct PersonalPositionState {
    pub bump: u8,
    pub nft_mint: Address,
    pub pool_id: Address,
    pub tick_lower_index: i32,
    pub tick_upper_index: i32,
    pub liquidity: u128,
    pub token_fees_owed_0: u64,
    pub token_fees_owed_1: u64,
}

} // verus!
