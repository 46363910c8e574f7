use crate::address::Address;
use crate::codec::tag_of;
use crate::error::Error;
use crate::wire::{
    address_at, flag_at, flag_byte, int_at, le_bytes, lemma_address_at,
    lemma_le_round_trip_exact, lemma_pow256_values, lemma_twos_round_trip, put_address, put_bool,
    put_i32, put_u128, put_u16, put_u32, put_u64, put_u8, read_bool, read_i32, read_u128, read_u16,
    read_u32, read_u64, take_address, to_twos, uint_at,
};
use vstd::prelude::*;

verus! {

/// The tag of `create_amm_config`: 137, 52, 237, 212, 215, 117, 108, 104.
pub const CREATE_AMM_CONFIG_TAG: u64 = 0x686c75d7d4ed3489;

/// The tag of `create_pool`: 233, 146, 209, 142, 207, 104, 64, 188.
pub const CREATE_POOL_TAG: u64 = 0xbc4068cf8ed192e9;

/// The tag of `open_position`: 135, 128, 47, 77, 15, 152, 240, 49.
pub const OPEN_POSITION_TAG: u64 = 0x31f0980f4d2f8087;

/// The tag of `increase_liquidity`: 46, 156, 243, 118, 13, 205, 251, 178.
pub const INCREASE_LIQUIDITY_TAG: u64 = 0xb2fbcd0d76f39c2e;

/// The tag of `decrease_liquidity`: 160, 38, 208, 111, 104, 91, 44, 1.
pub const DECREASE_LIQUIDITY_TAG: u64 = 0x012c5b686fd026a0;

/// The tag of `swap`: 248, 198, 158, 145, 225, 117, 135, 200.
pub const SWAP_TAG: u64 = 0xc88775e1919ec6f8;

/// The tag of `swap_v2`: 43, 4, 237, 11, 26, 201, 30, 98.
pub const SWAP_V2_TAG: u64 = 0x621ec91a0bed042b;

/// The tag of `initialize_reward`: 95, 135, 192, 196, 242, 129, 230, 68.
pub const INITIALIZE_REWARD_TAG: u64 = 0x44e681f2c4c0875f;

/// The tag of `set_reward_params`: 112, 52, 167, 75, 32, 201, 211, 137.
pub const SET_REWARD_PARAMS_TAG: u64 = 0x89d3c9204ba73470;

/// The tag of `transfer_reward_owner`: 7, 22, 12, 83, 242, 43, 48, 121.
pub const TRANSFER_REWARD_OWNER_TAG: u64 = 0x79302bf2530c1607;

/// The arguments of each action that this client can ask of the program.
#[derive(Clone, Copy, Debug, PartialEq, Eq)]
pub enum InstructionArgs {
    CreateAmmConfig {
        index: u16,
        tick_spacing: u16,
        trade_fee_rate: u32,
        protocol_fee_rate: u32,
        fund_fee_rate: u32,
    },
    CreatePool { sqrt_price_x64: u128, open_time: u64 },
    OpenPosition {
        tick_lower_index: i32,
        tick_upper_index: i32,
        tick_array_lower_start_index: i32,
        tick_array_upper_start_index: i32,
        liquidity: u128,
        amount_0_max: u64,
        amount_1_max: u64,
    },
    IncreaseLiquidity { liquidity: u128, amount_0_max: u64, amount_1_max: u64 },
    DecreaseLiquidity { liquidity: u128, amount_0_min: u64, amount_1_min: u64 },
    Swap { amount: u64, other_amount_threshold: u64, sqrt_price_limit_x64: u128, is_base_input: bool },
    SwapV2 {
        amount: u64,
        other_amount_threshold: u64,
        sqrt_price_limit_x64: u128,
        is_base_input: bool,
    },
    InitializeReward { open_time: u64, end_time: u64, emissions_per_second_x64: u128 },
    SetRewardParams {
        reward_index: u8,
        emissions_per_second_x64: u128,
        open_time: u64,
        end_time: u64,
    },
    TransferRewardOwner { new_owner: Address },
}

/// Bytes that the arguments of the action with the given tag take, or `None`
/// where no action has that tag.
pub open spec fn payload_len(tag: nat) -> Option<nat> {
    if tag == CREATE_AMM_CONFIG_TAG {
        Some(16)
    } else if tag == CREATE_POOL_TAG {
        Some(24)
    } else if tag == OPEN_POSITION_TAG {
        Some(48)
    } else if tag == INCREASE_LIQUIDITY_TAG {
        Some(32)
    } else if tag == DECREASE_LIQUIDITY_TAG {
        Some(32)
    } else if tag == SWAP_TAG {
        Some(33)
    } else if tag == SWAP_V2_TAG {
        Some(33)
    } else if tag == INITIALIZE_REWARD_TAG {
        Some(32)
    } else if tag == SET_REWARD_PARAMS_TAG {
        Some(33)
    } else if tag == TRANSFER_REWARD_OWNER_TAG {
        Some(32)
    } else {
        None
    }
}

impl InstructionArgs {
    /// The tag of the action.
    pub open spec fn tag(self) -> u64 {
        match self {
            InstructionArgs::CreateAmmConfig { .. } => CREATE_AMM_CONFIG_TAG,
            InstructionArgs::CreatePool { .. } => CREATE_POOL_TAG,
            InstructionArgs::OpenPosition { .. } => OPEN_POSITION_TAG,
            InstructionArgs::IncreaseLiquidity { .. } => INCREASE_LIQUIDITY_TAG,
            InstructionArgs::DecreaseLiquidity { .. } => DECREASE_LIQUIDITY_TAG,
            InstructionArgs::Swap { .. } => SWAP_TAG,
            InstructionArgs::SwapV2 { .. } => SWAP_V2_TAG,
            InstructionArgs::InitializeReward { .. } => INITIALIZE_REWARD_TAG,
            InstructionArgs::SetRewardParams { .. } => SET_REWARD_PARAMS_TAG,
            InstructionArgs::TransferRewardOwner { .. } => TRANSFER_REWARD_OWNER_TAG,
        }
    }

    /// The arguments as bytes: each field in its order, numbers least
    /// significant byte first.
    pub open spec fn payload(self) -> Seq<u8> {
        match self {
            InstructionArgs::CreateAmmConfig {
                index,
                tick_spacing,
                trade_fee_rate,
                protocol_fee_rate,
                fund_fee_rate,
            } => le_bytes(index as nat, 2) + le_bytes(tick_spacing as nat, 2) + le_bytes(
                trade_fee_rate as nat,
                4,
            ) + le_bytes(protocol_fee_rate as nat, 4) + le_bytes(fund_fee_rate as nat, 4),
            InstructionArgs::CreatePool { sqrt_price_x64, open_time } => le_bytes(
                sqrt_price_x64 as nat,
                16,
            ) + le_bytes(open_time as nat, 8),
            InstructionArgs::OpenPosition {
                tick_lower_index,
                tick_upper_index,
                tick_array_lower_start_index,
                tick_array_upper_start_index,
                liquidity,
                amount_0_max,
                amount_1_max,
            } => le_bytes(to_twos(tick_lower_index as int, 4), 4) + le_bytes(
                to_twos(tick_upper_index as int, 4),
                4,
            ) + le_bytes(to_twos(tick_array_lower_start_index as int, 4), 4) + le_bytes(
                to_twos(tick_array_upper_start_index as int, 4),
                4,
            ) + le_bytes(liquidity as nat, 16) + le_bytes(amount_0_max as nat, 8) + le_bytes(
                amount_1_max as nat,
                8,
            ),
            InstructionArgs::IncreaseLiquidity { liquidity, amount_0_max, amount_1_max } => le_bytes(
                liquidity as nat,
                16,
            ) + le_bytes(amount_0_max as nat, 8) + le_bytes(amount_1_max as nat, 8),
            InstructionArgs::DecreaseLiquidity { liquidity, amount_0_min, amount_1_min } => le_bytes(
                liquidity as nat,
                16,
            ) + le_bytes(amount_0_min as nat, 8) + le_bytes(amount_1_min as nat, 8),
            InstructionArgs::Swap {
                amount,
                other_amount_threshold,
                sqrt_price_limit_x64,
                is_base_input,
            } => le_bytes(amount as nat, 8) + le_bytes(other_amount_threshold as nat, 8) + le_bytes(
                sqrt_price_limit_x64 as nat,
                16,
            ) + seq![flag_byte(is_base_input)],
            InstructionArgs::SwapV2 {
                amount,
                other_amount_threshold,
                sqrt_price_limit_x64,
                is_base_input,
            } => le_bytes(amount as nat, 8) + le_bytes(other_amount_threshold as nat, 8) + le_bytes(
                sqrt_price_limit_x64 as nat,
                16,
            ) + seq![flag_byte(is_base_input)],
            InstructionArgs::InitializeReward {
                open_time,
                end_time,
                emissions_per_second_x64,
            } => le_bytes(open_time as nat, 8) + le_bytes(end_time as nat, 8) + le_bytes(
                emissions_per_second_x64 as nat,
                16,
            ),
            InstructionArgs::SetRewardParams {
                reward_index,
                emissions_per_second_x64,
                open_time,
                end_time,
            } => seq![reward_index] + le_bytes(emissions_per_second_x64 as nat, 16) + le_bytes(
                open_time as nat,
                8,
            ) + le_bytes(end_time as nat, 8),
            InstructionArgs::TransferRewardOwner { new_owner } => new_owner@,
        }
    }

    /// The data of the instruction: the tag of the action, then its arguments.
    pub open spec fn encoded(self) -> Seq<u8> {
        le_bytes(self.tag() as nat, 8) + self.payload()
    }

    /// The arguments of the action with the given tag, read from their fixed
    /// places behind the tag.
    pub open spec fn at(tag: nat, bytes: Seq<u8>) -> InstructionArgs {
        if tag == CREATE_AMM_CONFIG_TAG {
            InstructionArgs::CreateAmmConfig {
                index: uint_at(bytes, 8, 2) as u16,
                tick_spacing: uint_at(bytes, 10, 2) as u16,
                trade_fee_rate: uint_at(bytes, 12, 4) as u32,
                protocol_fee_rate: uint_at(bytes, 16, 4) as u32,
                fund_fee_rate: uint_at(bytes, 20, 4) as u32,
            }
        } else if tag == CREATE_POOL_TAG {
            InstructionArgs::CreatePool {
                sqrt_price_x64: uint_at(bytes, 8, 16) as u128,
                open_time: uint_at(bytes, 24, 8) as u64,
            }
        } else if tag == OPEN_POSITION_TAG {
            InstructionArgs::OpenPosition {
                tick_lower_index: int_at(bytes, 8, 4) as i32,
                tick_upper_index: int_at(bytes, 12, 4) as i32,
                tick_array_lower_start_index: int_at(bytes, 16, 4) as i32,
                tick_array_upper_start_index: int_at(bytes, 20, 4) as i32,
                liquidity: uint_at(bytes, 24, 16) as u128,
                amount_0_max: uint_at(bytes, 40, 8) as u64,
                amount_1_max: uint_at(bytes, 48, 8) as u64,
            }
        } else if tag == INCREASE_LIQUIDITY_TAG {
            InstructionArgs::IncreaseLiquidity {
                liquidity: uint_at(bytes, 8, 16) as u128,
                amount_0_max: uint_at(bytes, 24, 8) as u64,
                amount_1_max: uint_at(bytes, 32, 8) as u64,
            }
        } else if tag == DECREASE_LIQUIDITY_TAG {
            InstructionArgs::DecreaseLiquidity {
                liquidity: uint_at(bytes, 8, 16) as u128,
                amount_0_min: uint_at(bytes, 24, 8) as u64,
                amount_1_min: uint_at(bytes, 32, 8) as u64,
            }
        } else if tag == SWAP_TAG {
            InstructionArgs::Swap {
                amount: uint_at(bytes, 8, 8) as u64,
                other_amount_threshold: uint_at(bytes, 16, 8) as u64,
                sqrt_price_limit_x64: uint_at(bytes, 24, 16) as u128,
                is_base_input: flag_at(bytes, 40),
            }
        } else if tag == SWAP_V2_TAG {
            InstructionArgs::SwapV2 {
                amount: uint_at(bytes, 8, 8) as u64,
                other_amount_threshold: uint_at(bytes, 16, 8) as u64,
                sqrt_price_limit_x64: uint_at(bytes, 24, 16) as u128,
                is_base_input: flag_at(bytes, 40),
            }
        } else if tag == INITIALIZE_REWARD_TAG {
            InstructionArgs::InitializeReward {
                open_time: uint_at(bytes, 8, 8) as u64,
                end_time: uint_at(bytes, 16, 8) as u64,
                emissions_per_second_x64: uint_at(bytes, 24, 16) as u128,
            }
        } else if tag == SET_REWARD_PARAMS_TAG {
            InstructionArgs::SetRewardParams {
                reward_index: bytes[8],
                emissions_per_second_x64: uint_at(bytes, 9, 16) as u128,
                open_time: uint_at(bytes, 25, 8) as u64,
                end_time: uint_at(bytes, 33, 8) as u64,
            }
        } else {
            InstructionArgs::TransferRewardOwner { new_owner: address_at(bytes, 8) }
        }
    }

    /// What decoding the data of an instruction gives: the tag selects the
    /// action, then the data must hold all of its arguments. Bytes beyond
    /// them are ignored.
    pub open spec fn decoded(bytes: Seq<u8>) -> Result<InstructionArgs, Error> {
        if bytes.len() < 8 {
            Err(Error::TruncatedData)
        } else {
            match payload_len(tag_of(bytes)) {
                None => Err(Error::UnknownDiscriminator),
                Some(n) => if bytes.len() < 8 + n {
                    Err(Error::TruncatedData)
                } else {
                    Ok(Self::at(tag_of(bytes), bytes))
                },
            }
        }
    }

    /// Decoding the data of an instruction gives its arguments back.
    pub proof fn lemma_round_trip(self)
        ensures
            Self::decoded(self.encoded()) == Ok::<InstructionArgs, Error>(self),
            payload_len(self.tag() as nat) == Some(self.payload().len()),
    {
        let whole = self.encoded();
        lemma_pow256_values();
        crate::codec::lemma_tag_round_trip(self.tag(), self.payload());
        match self {
            InstructionArgs::CreateAmmConfig {
                index,
                tick_spacing,
                trade_fee_rate,
                protocol_fee_rate,
                fund_fee_rate,
            } => {
                lemma_le_round_trip_exact(index as nat, 2);
                lemma_le_round_trip_exact(tick_spacing as nat, 2);
                lemma_le_round_trip_exact(trade_fee_rate as nat, 4);
                lemma_le_round_trip_exact(protocol_fee_rate as nat, 4);
                lemma_le_round_trip_exact(fund_fee_rate as nat, 4);
                assert(whole.subrange(8, 10) =~= le_bytes(index as nat, 2));
                assert(whole.subrange(10, 12) =~= le_bytes(tick_spacing as nat, 2));
                assert(whole.subrange(12, 16) =~= le_bytes(trade_fee_rate as nat, 4));
                assert(whole.subrange(16, 20) =~= le_bytes(protocol_fee_rate as nat, 4));
                assert(whole.subrange(20, 24) =~= le_bytes(fund_fee_rate as nat, 4));
            },
            InstructionArgs::CreatePool { sqrt_price_x64, open_time } => {
                lemma_le_round_trip_exact(sqrt_price_x64 as nat, 16);
                lemma_le_round_trip_exact(open_time as nat, 8);
                assert(whole.subrange(8, 24) =~= le_bytes(sqrt_price_x64 as nat, 16));
                assert(whole.subrange(24, 32) =~= le_bytes(open_time as nat, 8));
            },
            InstructionArgs::OpenPosition {
                tick_lower_index,
                tick_upper_index,
                tick_array_lower_start_index,
                tick_array_upper_start_index,
                liquidity,
                amount_0_max,
                amount_1_max,
            } => {
                lemma_twos_round_trip(tick_lower_index as int, 4);
                lemma_twos_round_trip(tick_upper_index as int, 4);
                lemma_twos_round_trip(tick_array_lower_start_index as int, 4);
                lemma_twos_round_trip(tick_array_upper_start_index as int, 4);
                lemma_le_round_trip_exact(to_twos(tick_lower_index as int, 4), 4);
                lemma_le_round_trip_exact(to_twos(tick_upper_index as int, 4), 4);
                lemma_le_round_trip_exact(to_twos(tick_array_lower_start_index as int, 4), 4);
                lemma_le_round_trip_exact(to_twos(tick_array_upper_start_index as int, 4), 4);
                lemma_le_round_trip_exact(liquidity as nat, 16);
                lemma_le_round_trip_exact(amount_0_max as nat, 8);
                lemma_le_round_trip_exact(amount_1_max as nat, 8);
                assert(whole.subrange(8, 12) =~= le_bytes(to_twos(tick_lower_index as int, 4), 4));
                assert(whole.subrange(12, 16) =~= le_bytes(to_twos(tick_upper_index as int, 4), 4));
                assert(whole.subrange(16, 20) =~= le_bytes(
                    to_twos(tick_array_lower_start_index as int, 4),
                    4,
                ));
                assert(whole.subrange(20, 24) =~= le_bytes(
                    to_twos(tick_array_upper_start_index as int, 4),
                    4,
                ));
                assert(whole.subrange(24, 40) =~= le_bytes(liquidity as nat, 16));
                assert(whole.subrange(40, 48) =~= le_bytes(amount_0_max as nat, 8));
                assert(whole.subrange(48, 56) =~= le_bytes(amount_1_max as nat, 8));
            },
            InstructionArgs::IncreaseLiquidity { liquidity, amount_0_max, amount_1_max } => {
                lemma_le_round_trip_exact(liquidity as nat, 16);
                lemma_le_round_trip_exact(amount_0_max as nat, 8);
                lemma_le_round_trip_exact(amount_1_max as nat, 8);
                assert(whole.subrange(8, 24) =~= le_bytes(liquidity as nat, 16));
                assert(whole.subrange(24, 32) =~= le_bytes(amount_0_max as nat, 8));
                assert(whole.subrange(32, 40) =~= le_bytes(amount_1_max as nat, 8));
            },
            InstructionArgs::DecreaseLiquidity { liquidity, amount_0_min, amount_1_min } => {
                lemma_le_round_trip_exact(liquidity as nat, 16);
                lemma_le_round_trip_exact(amount_0_min as nat, 8);
                lemma_le_round_trip_exact(amount_1_min as nat, 8);
                assert(whole.subrange(8, 24) =~= le_bytes(liquidity as nat, 16));
                assert(whole.subrange(24, 32) =~= le_bytes(amount_0_min as nat, 8));
                assert(whole.subrange(32, 40) =~= le_bytes(amount_1_min as nat, 8));
            },
            InstructionArgs::Swap {
                amount,
                other_amount_threshold,
                sqrt_price_limit_x64,
                is_base_input,
            } => {
                lemma_le_round_trip_exact(amount as nat, 8);
                lemma_le_round_trip_exact(other_amount_threshold as nat, 8);
                lemma_le_round_trip_exact(sqrt_price_limit_x64 as nat, 16);
                assert(whole.subrange(8, 16) =~= le_bytes(amount as nat, 8));
                assert(whole.subrange(16, 24) =~= le_bytes(other_amount_threshold as nat, 8));
                assert(whole.subrange(24, 40) =~= le_bytes(sqrt_price_limit_x64 as nat, 16));
                assert(whole[40] == flag_byte(is_base_input));
            },
            InstructionArgs::SwapV2 {
                amount,
                other_amount_threshold,
                sqrt_price_limit_x64,
                is_base_input,
            } => {
                lemma_le_round_trip_exact(amount as nat, 8);
                lemma_le_round_trip_exact(other_amount_threshold as nat, 8);
                lemma_le_round_trip_exact(sqrt_price_limit_x64 as nat, 16);
                assert(whole.subrange(8, 16) =~= le_bytes(amount as nat, 8));
                assert(whole.subrange(16, 24) =~= le_bytes(other_amount_threshold as nat, 8));
                assert(whole.subrange(24, 40) =~= le_bytes(sqrt_price_limit_x64 as nat, 16));
                assert(whole[40] == flag_byte(is_base_input));
            },
            InstructionArgs::InitializeReward { open_time, end_time, emissions_per_second_x64 } => {
                lemma_le_round_trip_exact(open_time as nat, 8);
                lemma_le_round_trip_exact(end_time as nat, 8);
                lemma_le_round_trip_exact(emissions_per_second_x64 as nat, 16);
                assert(whole.subrange(8, 16) =~= le_bytes(open_time as nat, 8));
                assert(whole.subrange(16, 24) =~= le_bytes(end_time as nat, 8));
                assert(whole.subrange(24, 40) =~= le_bytes(emissions_per_second_x64 as nat, 16));
            },
            InstructionArgs::SetRewardParams {
                reward_index,
                emissions_per_second_x64,
                open_time,
                end_time,
            } => {
                lemma_le_round_trip_exact(emissions_per_second_x64 as nat, 16);
                lemma_le_round_trip_exact(open_time as nat, 8);
                lemma_le_round_trip_exact(end_time as nat, 8);
                assert(whole[8] == reward_index);
                assert(whole.subrange(9, 25) =~= le_bytes(emissions_per_second_x64 as nat, 16));
                assert(whole.subrange(25, 33) =~= le_bytes(open_time as nat, 8));
                assert(whole.subrange(33, 41) =~= le_bytes(end_time as nat, 8));
            },
            InstructionArgs::TransferRewardOwner { new_owner } => {
                assert(whole.subrange(8, 40) =~= new_owner@);
                lemma_address_at(whole, 8, new_owner);
            },
        }
    }

    /// The data of the instruction that asks for this action.
    pub fn encode(&self) -> (bytes: Vec<u8>)
        ensures
            bytes@ == self.encoded(),
    {
        let mut out: Vec<u8> = Vec::new();
        match *self {
            InstructionArgs::CreateAmmConfig {
                index,
                tick_spacing,
                trade_fee_rate,
                protocol_fee_rate,
                fund_fee_rate,
            } => {
                put_u64(&mut out, CREATE_AMM_CONFIG_TAG);
                put_u16(&mut out, index);
                put_u16(&mut out, tick_spacing);
                put_u32(&mut out, trade_fee_rate);
                put_u32(&mut out, protocol_fee_rate);
                put_u32(&mut out, fund_fee_rate);
            },
            InstructionArgs::CreatePool { sqrt_price_x64, open_time } => {
                put_u64(&mut out, CREATE_POOL_TAG);
                put_u128(&mut out, sqrt_price_x64);
                put_u64(&mut out, open_time);
            },
            InstructionArgs::OpenPosition {
                tick_lower_index,
                tick_upper_index,
                tick_array_lower_start_index,
                tick_array_upper_start_index,
                liquidity,
                amount_0_max,
                amount_1_max,
            } => {
                put_u64(&mut out, OPEN_POSITION_TAG);
                put_i32(&mut out, tick_lower_index);
                put_i32(&mut out, tick_upper_index);
                put_i32(&mut out, tick_array_lower_start_index);
                put_i32(&mut out, tick_array_upper_start_index);
                put_u128(&mut out, liquidity);
                put_u64(&mut out, amount_0_max);
                put_u64(&mut out, amount_1_max);
            },
            InstructionArgs::IncreaseLiquidity { liquidity, amount_0_max, amount_1_max } => {
                put_u64(&mut out, INCREASE_LIQUIDITY_TAG);
                put_u128(&mut out, liquidity);
                put_u64(&mut out, amount_0_max);
                put_u64(&mut out, amount_1_max);
            },
            InstructionArgs::DecreaseLiquidity { liquidity, amount_0_min, amount_1_min } => {
                put_u64(&mut out, DECREASE_LIQUIDITY_TAG);
                put_u128(&mut out, liquidity);
                put_u64(&mut out, amount_0_min);
                put_u64(&mut out, amount_1_min);
            },
            InstructionArgs::Swap {
                amount,
                other_amount_threshold,
                sqrt_price_limit_x64,
                is_base_input,
            } => {
                put_u64(&mut out, SWAP_TAG);
                put_u64(&mut out, amount);
                put_u64(&mut out, other_amount_threshold);
                put_u128(&mut out, sqrt_price_limit_x64);
                put_bool(&mut out, is_base_input);
            },
            InstructionArgs::SwapV2 {
                amount,
                other_amount_threshold,
                sqrt_price_limit_x64,
                is_base_input,
            } => {
                put_u64(&mut out, SWAP_V2_TAG);
                put_u64(&mut out, amount);
                put_u64(&mut out, other_amount_threshold);
                put_u128(&mut out, sqrt_price_limit_x64);
                put_bool(&mut out, is_base_input);
            },
            InstructionArgs::InitializeReward { open_time, end_time, emissions_per_second_x64 } => {
                put_u64(&mut out, INITIALIZE_REWARD_TAG);
                put_u64(&mut out, open_time);
                put_u64(&mut out, end_time);
                put_u128(&mut out, emissions_per_second_x64);
            },
            InstructionArgs::SetRewardParams {
                reward_index,
                emissions_per_second_x64,
                open_time,
                end_time,
            } => {
                put_u64(&mut out, SET_REWARD_PARAMS_TAG);
                put_u8(&mut out, reward_index);
                put_u128(&mut out, emissions_per_second_x64);
                put_u64(&mut out, open_time);
                put_u64(&mut out, end_time);
            },
            InstructionArgs::TransferRewardOwner { new_owner } => {
                put_u64(&mut out, TRANSFER_REWARD_OWNER_TAG);
                put_address(&mut out, &new_owner);
            },
        }
        assert(out@ =~= self.encoded());
        out
    }

    /// Decodes the data of an instruction: the tag selects the action.
    pub fn decode(bytes: &[u8]) -> (args: Result<InstructionArgs, Error>)
        ensures
            args == Self::decoded(bytes@),
    {
        let len: usize = bytes.len();
        if len < 8 {
            return Err(Error::TruncatedData);
        }
        let tag: u64 = read_u64(bytes, 0);
        let need: usize = if tag == CREATE_AMM_CONFIG_TAG {
            16
        } else if tag == CREATE_POOL_TAG {
            24
        } else if tag == OPEN_POSITION_TAG {
            48
        } else if tag == INCREASE_LIQUIDITY_TAG || tag == DECREASE_LIQUIDITY_TAG || tag
            == INITIALIZE_REWARD_TAG || tag == TRANSFER_REWARD_OWNER_TAG {
            32
        } else if tag == SWAP_TAG || tag == SWAP_V2_TAG || tag == SET_REWARD_PARAMS_TAG {
            33
        } else {
            return Err(Error::UnknownDiscriminator);
        };
        if len - 8 < need {
            return Err(Error::TruncatedData);
        }
        let args = if tag == CREATE_AMM_CONFIG_TAG {
            InstructionArgs::CreateAmmConfig {
                index: read_u16(bytes, 8),
                tick_spacing: read_u16(bytes, 10),
                trade_fee_rate: read_u32(bytes, 12),
                protocol_fee_rate: read_u32(bytes, 16),
                fund_fee_rate: read_u32(bytes, 20),
            }
        } else if tag == CREATE_POOL_TAG {
            InstructionArgs::CreatePool {
                sqrt_price_x64: read_u128(bytes, 8),
                open_time: read_u64(bytes, 24),
            }
        } else if tag == OPEN_POSITION_TAG {
            InstructionArgs::OpenPosition {
                tick_lower_index: read_i32(bytes, 8),
                tick_upper_index: read_i32(bytes, 12),
                tick_array_lower_start_index: read_i32(bytes, 16),
                tick_array_upper_start_index: read_i32(bytes, 20),
                liquidity: read_u128(bytes, 24),
                amount_0_max: read_u64(bytes, 40),
                amount_1_max: read_u64(bytes, 48),
            }
        } else if tag == INCREASE_LIQUIDITY_TAG {
            InstructionArgs::IncreaseLiquidity {
                liquidity: read_u128(bytes, 8),
                amount_0_max: read_u64(bytes, 24),
                amount_1_max: read_u64(bytes, 32),
            }
        } else if tag == DECREASE_LIQUIDITY_TAG {
            InstructionArgs::DecreaseLiquidity {
                liquidity: read_u128(bytes, 8),
                amount_0_min: read_u64(bytes, 24),
                amount_1_min: read_u64(bytes, 32),
            }
        } else if tag == SWAP_TAG {
            InstructionArgs::Swap {
                amount: read_u64(bytes, 8),
                other_amount_threshold: read_u64(bytes, 16),
                sqrt_price_limit_x64: read_u128(bytes, 24),
                is_base_input: read_bool(bytes, 40),
            }
        } else if tag == SWAP_V2_TAG {
            InstructionArgs::SwapV2 {
                amount: read_u64(bytes, 8),
                other_amount_threshold: read_u64(bytes, 16),
                sqrt_price_limit_x64: read_u128(bytes, 24),
                is_base_input: read_bool(bytes, 40),
            }
        } else if tag == INITIALIZE_REWARD_TAG {
            InstructionArgs::InitializeReward {
                open_time: read_u64(bytes, 8),
                end_time: read_u64(bytes, 16),
                emissions_per_second_x64: read_u128(bytes, 24),
            }
        } else if tag == SET_REWARD_PARAMS_TAG {
            InstructionArgs::SetRewardParams {
                reward_index: bytes[8],
                emissions_per_second_x64: read_u128(bytes, 9),
                open_time: read_u64(bytes, 25),
                end_time: read_u64(bytes, 33),
            }
        } else {
            InstructionArgs::TransferRewardOwner { new_owner: take_address(bytes, 8) }
        };
        Ok(args)
    }
}

} // verus!
