use crate::address::Address;
use crate::codec::tag_of;
use crate::error::Error;
use crate::wire::{
    address_at, flag_at, flag_byte, int_at, le_bytes, lemma_address_at,
    lemma_le_round_trip_exact, lemma_pow256_values, lemma_twos_round_trip, put_address, put_bool,
    put_i32, put_u128, put_u16, put_u64, read_bool, read_i32, read_u128, read_u16, read_u64,
    take_address, to_twos, uint_at,
};
use vstd::prelude::*;

verus! {

/// The tag of the event of a created pool: 25, 94, 75, 47, 112, 99, 53, 63.
pub const POOL_CREATED_TAG: u64 = 0x3f3563702f4b5e19;

/// The tag of the event of a swap: 64, 198, 205, 232, 38, 8, 113, 226.
pub const SWAP_EVENT_TAG: u64 = 0xe2710826e8cdc640;

/// The tag of the event of a change of liquidity: 126, 240, 175, 206, 158, 88, 153, 107.
pub const LIQUIDITY_CHANGE_TAG: u64 = 0x6b99589eceaff07e;

/// What the program reports in its log.
#[derive(Clone, Copy, Debug, PartialEq, Eq)]
pub enum Event {
    PoolCreated {
        token_mint_0: Address,
        token_mint_1: Address,
        tick_spacing: u16,
        pool_state: Address,
        sqrt_price_x64: u128,
        tick: i32,
        token_vault_0: Address,
        token_vault_1: Address,
    },
    Swap {
        pool_state: Address,
        sender: Address,
        token_account_0: Address,
        token_account_1: Address,
        amount_0: u64,
        transfer_fee_0: u64,
        amount_1: u64,
        transfer_fee_1: u64,
        zero_for_one: bool,
        sqrt_price_x64: u128,
        liquidity: u128,
        tick: i32,
    },
    LiquidityChange {
        pool_state: Address,
        tick: i32,
        tick_lower: i32,
        tick_upper: i32,
        liquidity_before: u128,
        liquidity_after: u128,
    },
}

/// Bytes that the fields of the event with the given tag take, or `None`
/// where no event has that tag.
pub open spec fn event_len(tag: nat) -> Option<nat> {
    if tag == POOL_CREATED_TAG {
        Some(182)
    } else if tag == SWAP_EVENT_TAG {
        Some(197)
    } else if tag == LIQUIDITY_CHANGE_TAG {
        Some(76)
    } else {
        None
    }
}

impl Event {
    /// The tag of the event.
    pub open spec fn tag(self) -> u64 {
        match self {
            Event::PoolCreated { .. } => POOL_CREATED_TAG,
            Event::Swap { .. } => SWAP_EVENT_TAG,
            Event::LiquidityChange { .. } => LIQUIDITY_CHANGE_TAG,
        }
    }

    /// The fields of the event as bytes, in their order.
    pub open spec fn payload(self) -> Seq<u8> {
        match self {
            Event::PoolCreated {
                token_mint_0,
                token_mint_1,
                tick_spacing,
                pool_state,
                sqrt_price_x64,
                tick,
                token_vault_0,
                token_vault_1,
            } => token_mint_0@ + token_mint_1@ + le_bytes(tick_spacing as nat, 2) + pool_state@
                + le_bytes(sqrt_price_x64 as nat, 16) + le_bytes(to_twos(tick as int, 4), 4)
                + token_vault_0@ + token_vault_1@,
            Event::Swap {
                pool_state,
                sender,
                token_account_0,
                token_account_1,
                amount_0,
                transfer_fee_0,
                amount_1,
                transfer_fee_1,
                zero_for_one,
                sqrt_price_x64,
                liquidity,
                tick,
            } => pool_state@ + sender@ + token_account_0@ + token_account_1@ + le_bytes(
                amount_0 as nat,
                8,
            ) + le_bytes(transfer_fee_0 as nat, 8) + le_bytes(amount_1 as nat, 8) + le_bytes(
                transfer_fee_1 as nat,
                8,
            ) + seq![flag_byte(zero_for_one)] + le_bytes(sqrt_price_x64 as nat, 16) + le_bytes(
                liquidity as nat,
                16,
            ) + le_bytes(to_twos(tick as int, 4), 4),
            Event::LiquidityChange {
                pool_state,
                tick,
                tick_lower,
                tick_upper,
                liquidity_before,
                liquidity_after,
            } => pool_state@ + le_bytes(to_twos(tick as int, 4), 4) + le_bytes(
                to_twos(tick_lower as int, 4),
                4,
            ) + le_bytes(to_twos(tick_upper as int, 4), 4) + le_bytes(liquidity_before as nat, 16)
                + le_bytes(liquidity_after as nat, 16),
        }
    }

    /// The record of the event: its tag, then its fields.
    pub open spec fn encoded(self) -> Seq<u8> {
        le_bytes(self.tag() as nat, 8) + self.payload()
    }

    /// The fields of the event with the given tag, read from their fixed
    /// places behind the tag.
    pub open spec fn at(tag: nat, bytes: Seq<u8>) -> Event {
        if tag == POOL_CREATED_TAG {
            Event::PoolCreated {
                token_mint_0: address_at(bytes, 8),
                token_mint_1: address_at(bytes, 40),
                tick_spacing: uint_at(bytes, 72, 2) as u16,
                pool_state: address_at(bytes, 74),
                sqrt_price_x64: uint_at(bytes, 106, 16) as u128,
                tick: int_at(bytes, 122, 4) as i32,
                token_vault_0: address_at(bytes, 126),
                token_vault_1: address_at(bytes, 158),
            }
        } else if tag == SWAP_EVENT_TAG {
            Event::Swap {
                pool_state: address_at(bytes, 8),
                sender: address_at(bytes, 40),
                token_account_0: address_at(bytes, 72),
                token_account_1: address_at(bytes, 104),
                amount_0: uint_at(bytes, 136, 8) as u64,
                transfer_fee_0: uint_at(bytes, 144, 8) as u64,
                amount_1: uint_at(bytes, 152, 8) as u64,
                transfer_fee_1: uint_at(bytes, 160, 8) as u64,
                zero_for_one: flag_at(bytes, 168),
                sqrt_price_x64: uint_at(bytes, 169, 16) as u128,
                liquidity: uint_at(bytes, 185, 16) as u128,
                tick: int_at(bytes, 201, 4) as i32,
            }
        } else {
            Event::LiquidityChange {
                pool_state: address_at(bytes, 8),
                tick: int_at(bytes, 40, 4) as i32,
                tick_lower: int_at(bytes, 44, 4) as i32,
                tick_upper: int_at(bytes, 48, 4) as i32,
                liquidity_before: uint_at(bytes, 52, 16) as u128,
                liquidity_after: uint_at(bytes, 68, 16) as u128,
            }
        }
    }

    /// What decoding the record of an event gives: the tag selects the kind
    /// of event, then the record must hold all of its fields. Bytes beyond
    /// them are ignored.
    pub open spec fn decoded(bytes: Seq<u8>) -> Result<Event, Error> {
        if bytes.len() < 8 {
            Err(Error::TruncatedData)
        } else {
            match event_len(tag_of(bytes)) {
                None => Err(Error::UnknownDiscriminator),
                Some(n) => if bytes.len() < 8 + n {
                    Err(Error::TruncatedData)
                } else {
                    Ok(Self::at(tag_of(bytes), bytes))
                },
            }
        }
    }

    /// Decoding the record of an event gives the event back.
    pub proof fn lemma_round_trip(self)
        ensures
            Self::decoded(self.encoded()) == Ok::<Event, Error>(self),
            event_len(self.tag() as nat) == Some(self.payload().len()),
    {
        let whole = self.encoded();
        lemma_pow256_values();
        crate::codec::lemma_tag_round_trip(self.tag(), self.payload());
        match self {
            Event::PoolCreated {
                token_mint_0,
                token_mint_1,
                tick_spacing,
                pool_state,
                sqrt_price_x64,
                tick,
                token_vault_0,
                token_vault_1,
            } => {
                lemma_le_round_trip_exact(tick_spacing as nat, 2);
                lemma_le_round_trip_exact(sqrt_price_x64 as nat, 16);
                lemma_twos_round_trip(tick as int, 4);
                lemma_le_round_trip_exact(to_twos(tick as int, 4), 4);
                assert(whole.subrange(8, 40) =~= token_mint_0@);
                assert(whole.subrange(40, 72) =~= token_mint_1@);
                assert(whole.subrange(72, 74) =~= le_bytes(tick_spacing as nat, 2));
                assert(whole.subrange(74, 106) =~= pool_state@);
                assert(whole.subrange(106, 122) =~= le_bytes(sqrt_price_x64 as nat, 16));
                assert(whole.subrange(122, 126) =~= le_bytes(to_twos(tick as int, 4), 4));
                assert(whole.subrange(126, 158) =~= token_vault_0@);
                assert(whole.subrange(158, 190) =~= token_vault_1@);
                lemma_address_at(whole, 8, token_mint_0);
                lemma_address_at(whole, 40, token_mint_1);
                lemma_address_at(whole, 74, pool_state);
                lemma_address_at(whole, 126, token_vault_0);
                lemma_address_at(whole, 158, token_vault_1);
            },
            Event::Swap {
                pool_state,
                sender,
                token_account_0,
                token_account_1,
                amount_0,
                transfer_fee_0,
                amount_1,
                transfer_fee_1,
                zero_for_one,
                sqrt_price_x64,
                liquidity,
                tick,
            } => {
                lemma_le_round_trip_exact(amount_0 as nat, 8);
                lemma_le_round_trip_exact(transfer_fee_0 as nat, 8);
                lemma_le_round_trip_exact(amount_1 as nat, 8);
                lemma_le_round_trip_exact(transfer_fee_1 as nat, 8);
                lemma_le_round_trip_exact(sqrt_price_x64 as nat, 16);
                lemma_le_round_trip_exact(liquidity as nat, 16);
                lemma_twos_round_trip(tick as int, 4);
                lemma_le_round_trip_exact(to_twos(tick as int, 4), 4);
                assert(whole.subrange(8, 40) =~= pool_state@);
                assert(whole.subrange(40, 72) =~= sender@);
                assert(whole.subrange(72, 104) =~= token_account_0@);
                assert(whole.subrange(104, 136) =~= token_account_1@);
                assert(whole.subrange(136, 144) =~= le_bytes(amount_0 as nat, 8));
                assert(whole.subrange(144, 152) =~= le_bytes(transfer_fee_0 as nat, 8));
                assert(whole.subrange(152, 160) =~= le_bytes(amount_1 as nat, 8));
                assert(whole.subrange(160, 168) =~= le_bytes(transfer_fee_1 as nat, 8));
                assert(whole[168] == flag_byte(zero_for_one));
                assert(whole.subrange(169, 185) =~= le_bytes(sqrt_price_x64 as nat, 16));
                assert(whole.subrange(185, 201) =~= le_bytes(liquidity as nat, 16));
                assert(whole.subrange(201, 205) =~= le_bytes(to_twos(tick as int, 4), 4));
                lemma_address_at(whole, 8, pool_state);
                lemma_address_at(whole, 40, sender);
                lemma_address_at(whole, 72, token_account_0);
                lemma_address_at(whole, 104, token_account_1);
            },
            Event::LiquidityChange {
                pool_state,
                tick,
                tick_lower,
                tick_upper,
                liquidity_before,
                liquidity_after,
            } => {
                lemma_twos_round_trip(tick as int, 4);
                lemma_twos_round_trip(tick_lower as int, 4);
                lemma_twos_round_trip(tick_upper as int, 4);
                lemma_le_round_trip_exact(to_twos(tick as int, 4), 4);
                lemma_le_round_trip_exact(to_twos(tick_lower as int, 4), 4);
                lemma_le_round_trip_exact(to_twos(tick_upper as int, 4), 4);
                lemma_le_round_trip_exact(liquidity_before as nat, 16);
                lemma_le_round_trip_exact(liquidity_after as nat, 16);
                assert(whole.subrange(8, 40) =~= pool_state@);
                assert(whole.subrange(40, 44) =~= le_bytes(to_twos(tick as int, 4), 4));
                assert(whole.subrange(44, 48) =~= le_bytes(to_twos(tick_lower as int, 4), 4));
                assert(whole.subrange(48, 52) =~= le_bytes(to_twos(tick_upper as int, 4), 4));
                assert(whole.subrange(52, 68) =~= le_bytes(liquidity_before as nat, 16));
                assert(whole.subrange(68, 84) =~= le_bytes(liquidity_after as nat, 16));
                lemma_address_at(whole, 8, pool_state);
            },
        }
    }

    /// The record of this event.
    pub fn encode(&self) -> (bytes: Vec<u8>)
        ensures
            bytes@ == self.encoded(),
    {
        let mut out: Vec<u8> = Vec::new();
        match *self {
            Event::PoolCreated {
                token_mint_0,
                token_mint_1,
                tick_spacing,
                pool_state,
                sqrt_price_x64,
                tick,
                token_vault_0,
                token_vault_1,
            } => {
                put_u64(&mut out, POOL_CREATED_TAG);
                put_address(&mut out, &token_mint_0);
                put_address(&mut out, &token_mint_1);
                put_u16(&mut out, tick_spacing);
                put_address(&mut out, &pool_state);
                put_u128(&mut out, sqrt_price_x64);
                put_i32(&mut out, tick);
                put_address(&mut out, &token_vault_0);
                put_address(&mut out, &token_vault_1);
            },
            Event::Swap {
                pool_state,
                sender,
                token_account_0,
                token_account_1,
                amount_0,
                transfer_fee_0,
                amount_1,
                transfer_fee_1,
                zero_for_one,
                sqrt_price_x64,
                liquidity,
                tick,
            } => {
                put_u64(&mut out, SWAP_EVENT_TAG);
                put_address(&mut out, &pool_state);
                put_address(&mut out, &sender);
                put_address(&mut out, &token_account_0);
                put_address(&mut out, &token_account_1);
                put_u64(&mut out, amount_0);
                put_u64(&mut out, transfer_fee_0);
                put_u64(&mut out, amount_1);
                put_u64(&mut out, transfer_fee_1);
                put_bool(&mut out, zero_for_one);
                put_u128(&mut out, sqrt_price_x64);
                put_u128(&mut out, liquidity);
                put_i32(&mut out, tick);
            },
            Event::LiquidityChange {
                pool_state,
                tick,
                tick_lower,
                tick_upper,
                liquidity_before,
                liquidity_after,
            } => {
                put_u64(&mut out, LIQUIDITY_CHANGE_TAG);
                put_address(&mut out, &pool_state);
                put_i32(&mut out, tick);
                put_i32(&mut out, tick_lower);
                put_i32(&mut out, tick_upper);
                put_u128(&mut out, liquidity_before);
                put_u128(&mut out, liquidity_after);
            },
        }
        assert(out@ =~= self.encoded());
        out
    }

    /// Decodes the record of an event: the tag selects the kind of event.
    pub fn decode(bytes: &[u8]) -> (event: Result<Event, Error>)
        ensures
            event == Self::decoded(bytes@),
    {
        let len: usize = bytes.len();
        if len < 8 {
            return Err(Error::TruncatedData);
        }
        let tag: u64 = read_u64(bytes, 0);
        let need: usize = if tag == POOL_CREATED_TAG {
            182
        } else if tag == SWAP_EVENT_TAG {
            197
        } else if tag == LIQUIDITY_CHANGE_TAG {
            76
        } else {
            return Err(Error::UnknownDiscriminator);
        };
        if len - 8 < need {
            return Err(Error::TruncatedData);
        }
        let event = if tag == POOL_CREATED_TAG {
            Event::PoolCreated {
                token_mint_0: take_address(bytes, 8),
                token_mint_1: take_address(bytes, 40),
                tick_spacing: read_u16(bytes, 72),
                pool_state: take_address(bytes, 74),
                sqrt_price_x64: read_u128(bytes, 106),
                tick: read_i32(bytes, 122),
                token_vault_0: take_address(bytes, 126),
                token_vault_1: take_address(bytes, 158),
            }
        } else if tag == SWAP_EVENT_TAG {
            Event::Swap {
                pool_state: take_address(bytes, 8),
                sender: take_address(bytes, 40),
                token_account_0: take_address(bytes, 72),
                token_account_1: take_address(bytes, 104),
                amount_0: read_u64(bytes, 136),
                transfer_fee_0: read_u64(bytes, 144),
                amount_1: read_u64(bytes, 152),
                transfer_fee_1: read_u64(bytes, 160),
                zero_for_one: read_bool(bytes, 168),
                sqrt_price_x64: read_u128(bytes, 169),
                liquidity: read_u128(bytes, 185),
                tick: read_i32(bytes, 201),
            }
        } else {
            Event::LiquidityChange {
                pool_state: take_address(bytes, 8),
                tick: read_i32(bytes, 40),
                tick_lower: read_i32(bytes, 44),
                tick_upper: read_i32(bytes, 48),
                liquidity_before: read_u128(bytes, 52),
                liquidity_after: read_u128(bytes, 68),
            }
        };
        Ok(event)
    }
}

} // verus!
