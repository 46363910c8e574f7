use crate::codec::{
    check_header, concat_all, header_check, lemma_concat_all_chunk, lemma_concat_all_len,
    lemma_words_bytes_len, lemma_words_round_trip, put_words, read_words, result_view, words_at,
    words_bytes,
};
use crate::error::Error;
use crate::state::{
    AmmConfig, PersonalPositionState, PoolState, TickArrayBitmapExtension, TickArrayState,
    TickState,
};
use crate::wire::{
    int_at, le_bytes, lemma_le_round_trip_exact, lemma_pow256_values, lemma_twos_round_trip,
    put_address, put_i128, put_i32, put_u128, put_u16, put_u32,
    put_u64, put_u8, put_zeros, read_address, read_i128, read_i32, read_u128, read_u16, read_u32,
    read_u64, to_twos, uint_at, zeros,
};
use vstd::prelude::*;

verus! {

/// What a pool snapshot holds, as mathematical values.
#[verifier::ext_equal]
pub struct PoolStateView {
    pub bump: u8,
    pub amm_config: Seq<u8>,
    pub owner: Seq<u8>,
    pub token_mint_0: Seq<u8>,
    pub token_mint_1: Seq<u8>,
    pub token_vault_0: Seq<u8>,
    pub token_vault_1: Seq<u8>,
    pub observation_key: Seq<u8>,
    pub mint_decimals_0: u8,
    pub mint_decimals_1: u8,
    pub tick_spacing: u16,
    pub liquidity: u128,
    pub sqrt_price_x64: u128,
    pub tick_current: i32,
    pub tick_array_bitmap: Seq<u64>,
}

impl View for PoolState {
    type V = PoolStateView;

    open spec fn view(&self) -> PoolStateView {
        PoolStateView {
            bump: self.bump,
            amm_config: self.amm_config@,
            owner: self.owner@,
            token_mint_0: self.token_mint_0@,
            token_mint_1: self.token_mint_1@,
            token_vault_0: self.token_vault_0@,
            token_vault_1: self.token_vault_1@,
            observation_key: self.observation_key@,
            mint_decimals_0: self.mint_decimals_0,
            mint_decimals_1: self.mint_decimals_1,
            tick_spacing: self.tick_spacing,
            liquidity: self.liquidity,
            sqrt_price_x64: self.sqrt_price_x64,
            tick_current: self.tick_current,
            tick_array_bitmap: self.tick_array_bitmap@,
        }
    }
}

/// Bytes of a pool record.
pub const POOL_STATE_LEN: usize = 1544;

/// The tag of a pool record: its first eight bytes, 247, 237, 227, 245, 215, 195, 222, 70,
/// as a number, least significant byte first.
pub const POOL_STATE_TAG: u64 = 0x46dec3d7f5e3edf7;

impl PoolStateView {
    /// The addresses have 32 bytes each and the bitmap has 16 words.
    pub open spec fn valid(self) -> bool {
        &&& self.amm_config.len() == 32
        &&& self.owner.len() == 32
        &&& self.token_mint_0.len() == 32
        &&& self.token_mint_1.len() == 32
        &&& self.token_vault_0.len() == 32
        &&& self.token_vault_1.len() == 32
        &&& self.observation_key.len() == 32
        &&& self.tick_array_bitmap.len() == 16
    }

    /// The fields that come before the reserved bytes of the record.
    pub open spec fn encoded_head(self) -> Seq<u8> {
        le_bytes(POOL_STATE_TAG as nat, 8) + seq![self.bump] + self.amm_config + self.owner + self.token_mint_0
            + self.token_mint_1 + self.token_vault_0 + self.token_vault_1 + self.observation_key
            + seq![self.mint_decimals_0] + seq![self.mint_decimals_1] + le_bytes(
            self.tick_spacing as nat,
            2,
        ) + le_bytes(self.liquidity as nat, 16) + le_bytes(self.sqrt_price_x64 as nat, 16)
            + le_bytes(to_twos(self.tick_current as int, 4), 4)
    }

    /// The record of a pool: tag, fields in their fixed places, and zero in
    /// the bytes that this client does not read.
    pub open spec fn encoded(self) -> Seq<u8> {
        self.encoded_head() + zeros(631) + words_bytes(self.tick_array_bitmap) + zeros(512)
    }

    /// The fields of a pool read from their fixed places in a record.
    pub open spec fn at(bytes: Seq<u8>) -> PoolStateView {
        PoolStateView {
            bump: bytes[8],
            amm_config: bytes.subrange(9, 41),
            owner: bytes.subrange(41, 73),
            token_mint_0: bytes.subrange(73, 105),
            token_mint_1: bytes.subrange(105, 137),
            token_vault_0: bytes.subrange(137, 169),
            token_vault_1: bytes.subrange(169, 201),
            observation_key: bytes.subrange(201, 233),
            mint_decimals_0: bytes[233],
            mint_decimals_1: bytes[234],
            tick_spacing: uint_at(bytes, 235, 2) as u16,
            liquidity: uint_at(bytes, 237, 16) as u128,
            sqrt_price_x64: uint_at(bytes, 253, 16) as u128,
            tick_current: int_at(bytes, 269, 4) as i32,
            tick_array_bitmap: words_at(bytes, 904, 16),
        }
    }

    /// What decoding a record as a pool gives.
    pub open spec fn decoded(bytes: Seq<u8>) -> Result<PoolStateView, Error> {
        match header_check(bytes, POOL_STATE_TAG, 1544) {
            Err(e) => Err(e),
            Ok(_) => Ok(Self::at(bytes)),
        }
    }

    /// Decoding the record of a pool gives the pool back.
    pub proof fn lemma_round_trip(self)
        requires
            self.valid(),
        ensures
            self.encoded().len() == 1544,
            Self::decoded(self.encoded()) == Ok::<PoolStateView, Error>(self),
    {
        let head = self.encoded_head();
        let whole = self.encoded();
        lemma_pow256_values();
        lemma_le_round_trip_exact(POOL_STATE_TAG as nat, 8);
        lemma_pow256_values();
        lemma_le_round_trip_exact(self.tick_spacing as nat, 2);
        lemma_le_round_trip_exact(self.liquidity as nat, 16);
        lemma_le_round_trip_exact(self.sqrt_price_x64 as nat, 16);
        lemma_twos_round_trip(self.tick_current as int, 4);
        lemma_le_round_trip_exact(to_twos(self.tick_current as int, 4), 4);
        lemma_words_bytes_len(self.tick_array_bitmap);
        assert(head.len() == 273);
        assert(whole.len() == 1544);
        assert(whole.subrange(0, 8) =~= le_bytes(POOL_STATE_TAG as nat, 8));
        let got = Self::at(whole);
        assert(got.amm_config =~= self.amm_config);
        assert(got.owner =~= self.owner);
        assert(got.token_mint_0 =~= self.token_mint_0);
        assert(got.token_mint_1 =~= self.token_mint_1);
        assert(got.token_vault_0 =~= self.token_vault_0);
        assert(got.token_vault_1 =~= self.token_vault_1);
        assert(got.observation_key =~= self.observation_key);
        assert(whole.subrange(235, 237) =~= le_bytes(self.tick_spacing as nat, 2));
        assert(whole.subrange(237, 253) =~= le_bytes(self.liquidity as nat, 16));
        assert(whole.subrange(253, 269) =~= le_bytes(self.sqrt_price_x64 as nat, 16));
        assert(whole.subrange(269, 273) =~= le_bytes(to_twos(self.tick_current as int, 4), 4));
        assert(whole.subrange(904, 1032) =~= words_bytes(self.tick_array_bitmap));
        lemma_words_round_trip(whole, 904, self.tick_array_bitmap);
        assert(got =~= self);
    }
}

impl PoolState {
    /// The record of this pool.
    pub fn encode(&self) -> (bytes: Vec<u8>)
        ensures
            bytes@ == self@.encoded(),
    {
        let mut out: Vec<u8> = Vec::new();
        put_u64(&mut out, POOL_STATE_TAG);
        assert(out@ =~= le_bytes(POOL_STATE_TAG as nat, 8));
        put_u8(&mut out, self.bump);
        put_address(&mut out, &self.amm_config);
        put_address(&mut out, &self.owner);
        put_address(&mut out, &self.token_mint_0);
        put_address(&mut out, &self.token_mint_1);
        put_address(&mut out, &self.token_vault_0);
        put_address(&mut out, &self.token_vault_1);
        put_address(&mut out, &self.observation_key);
        put_u8(&mut out, self.mint_decimals_0);
        put_u8(&mut out, self.mint_decimals_1);
        put_u16(&mut out, self.tick_spacing);
        put_u128(&mut out, self.liquidity);
        put_u128(&mut out, self.sqrt_price_x64);
        put_i32(&mut out, self.tick_current);
        put_zeros(&mut out, 631);
        put_words(&mut out, self.tick_array_bitmap.as_slice());
        put_zeros(&mut out, 512);
        out
    }

    /// Decodes the record of a pool. A record that is shorter than the
    /// layout of a pool is truncated; one that is long enough and begins
    /// with another tag is of an unknown type.
    pub fn decode(bytes: &[u8]) -> (pool: Result<PoolState, Error>)
        ensures
            result_view(pool) == PoolStateView::decoded(bytes@),
    {
        match check_header(bytes, POOL_STATE_TAG, POOL_STATE_LEN) {
            Err(e) => {
                return Err(e);
            },
            Ok(_) => {},
        }
        let words = read_words(bytes, 904, 16);
        let mut bitmap = [0u64; 16];
        let mut i: usize = 0;
        while i < 16
            invariant
                i <= 16,
                words@.len() == 16,
                forall|j: int| 0 <= j < i ==> bitmap@[j] == words@[j],
            decreases 16 - i,
        {
            bitmap[i] = words[i];
            i += 1;
        }
        assert(bitmap@ =~= words@);
        let pool = PoolState {
            bump: bytes[8],
            amm_config: read_address(bytes, 9),
            owner: read_address(bytes, 41),
            token_mint_0: read_address(bytes, 73),
            token_mint_1: read_address(bytes, 105),
            token_vault_0: read_address(bytes, 137),
            token_vault_1: read_address(bytes, 169),
            observation_key: read_address(bytes, 201),
            mint_decimals_0: bytes[233],
            mint_decimals_1: bytes[234],
            tick_spacing: read_u16(bytes, 235),
            liquidity: read_u128(bytes, 237),
            sqrt_price_x64: read_u128(bytes, 253),
            tick_current: read_i32(bytes, 269),
            tick_array_bitmap: bitmap,
        };
        assert(pool@ =~= PoolStateView::at(bytes@));
        Ok(pool)
    }
}

/// What a fee configuration holds, as mathematical values.
#[verifier::ext_equal]
pub struct AmmConfigView {
    pub bump: u8,
    pub index: u16,
    pub owner: Seq<u8>,
    pub protocol_fee_rate: u32,
    pub trade_fee_rate: u32,
    pub tick_spacing: u16,
    pub fund_fee_rate: u32,
    pub fund_owner: Seq<u8>,
}

impl View for AmmConfig {
    type V = AmmConfigView;

    open spec fn view(&self) -> AmmConfigView {
        AmmConfigView {
            bump: self.bump,
            index: self.index,
            owner: self.owner@,
            protocol_fee_rate: self.protocol_fee_rate,
            trade_fee_rate: self.trade_fee_rate,
            tick_spacing: self.tick_spacing,
            fund_fee_rate: self.fund_fee_rate,
            fund_owner: self.fund_owner@,
        }
    }
}

/// Bytes of the record of a fee configuration.
pub const AMM_CONFIG_LEN: usize = 117;

/// The tag of the record of a fee configuration: its first eight bytes, 218, 244, 33, 104, 203, 203, 43, 111,
/// as a number, least significant byte first.
pub const AMM_CONFIG_TAG: u64 = 0x6f2bcbcb6821f4da;

impl AmmConfigView {
    /// The addresses have 32 bytes each.
    pub open spec fn valid(self) -> bool {
        self.owner.len() == 32 && self.fund_owner.len() == 32
    }

    /// The record of a fee configuration.
    pub open spec fn encoded(self) -> Seq<u8> {
        le_bytes(AMM_CONFIG_TAG as nat, 8) + seq![self.bump] + le_bytes(self.index as nat, 2) + self.owner
            + le_bytes(self.protocol_fee_rate as nat, 4) + le_bytes(self.trade_fee_rate as nat, 4)
            + le_bytes(self.tick_spacing as nat, 2) + le_bytes(self.fund_fee_rate as nat, 4)
            + zeros(4) + self.fund_owner + zeros(24)
    }

    /// The fields of a fee configuration read from their fixed places in a record.
    pub open spec fn at(bytes: Seq<u8>) -> AmmConfigView {
        AmmConfigView {
            bump: bytes[8],
            index: uint_at(bytes, 9, 2) as u16,
            owner: bytes.subrange(11, 43),
            protocol_fee_rate: uint_at(bytes, 43, 4) as u32,
            trade_fee_rate: uint_at(bytes, 47, 4) as u32,
            tick_spacing: uint_at(bytes, 51, 2) as u16,
            fund_fee_rate: uint_at(bytes, 53, 4) as u32,
            fund_owner: bytes.subrange(61, 93),
        }
    }

    /// What decoding a record as a fee configuration gives.
    pub open spec fn decoded(bytes: Seq<u8>) -> Result<AmmConfigView, Error> {
        match header_check(bytes, AMM_CONFIG_TAG, 117) {
            Err(e) => Err(e),
            Ok(_) => Ok(Self::at(bytes)),
        }
    }

    /// Decoding the record of a fee configuration gives the configuration back.
    pub proof fn lemma_round_trip(self)
        requires
            self.valid(),
        ensures
            self.encoded().len() == 117,
            Self::decoded(self.encoded()) == Ok::<AmmConfigView, Error>(self),
    {
        let whole = self.encoded();
        lemma_pow256_values();
        lemma_le_round_trip_exact(AMM_CONFIG_TAG as nat, 8);
        lemma_pow256_values();
        lemma_le_round_trip_exact(self.index as nat, 2);
        lemma_le_round_trip_exact(self.protocol_fee_rate as nat, 4);
        lemma_le_round_trip_exact(self.trade_fee_rate as nat, 4);
        lemma_le_round_trip_exact(self.tick_spacing as nat, 2);
        lemma_le_round_trip_exact(self.fund_fee_rate as nat, 4);
        assert(whole.len() == 117);
        assert(whole.subrange(0, 8) =~= le_bytes(AMM_CONFIG_TAG as nat, 8));
        let got = Self::at(whole);
        assert(got.owner =~= self.owner);
        assert(got.fund_owner =~= self.fund_owner);
        assert(whole.subrange(9, 11) =~= le_bytes(self.index as nat, 2));
        assert(whole.subrange(43, 47) =~= le_bytes(self.protocol_fee_rate as nat, 4));
        assert(whole.subrange(47, 51) =~= le_bytes(self.trade_fee_rate as nat, 4));
        assert(whole.subrange(51, 53) =~= le_bytes(self.tick_spacing as nat, 2));
        assert(whole.subrange(53, 57) =~= le_bytes(self.fund_fee_rate as nat, 4));
        assert(got =~= self);
    }
}

impl AmmConfig {
    /// The record of this fee configuration.
    pub fn encode(&self) -> (bytes: Vec<u8>)
        ensures
            bytes@ == self@.encoded(),
    {
        let mut out: Vec<u8> = Vec::new();
        put_u64(&mut out, AMM_CONFIG_TAG);
        assert(out@ =~= le_bytes(AMM_CONFIG_TAG as nat, 8));
        put_u8(&mut out, self.bump);
        put_u16(&mut out, self.index);
        put_address(&mut out, &self.owner);
        put_u32(&mut out, self.protocol_fee_rate);
        put_u32(&mut out, self.trade_fee_rate);
        put_u16(&mut out, self.tick_spacing);
        put_u32(&mut out, self.fund_fee_rate);
        put_zeros(&mut out, 4);
        put_address(&mut out, &self.fund_owner);
        put_zeros(&mut out, 24);
        out
    }

    /// Decodes the record of a fee configuration.
    pub fn decode(bytes: &[u8]) -> (config: Result<AmmConfig, Error>)
        ensures
            result_view(config) == AmmConfigView::decoded(bytes@),
    {
        match check_header(bytes, AMM_CONFIG_TAG, AMM_CONFIG_LEN) {
            Err(e) => {
                return Err(e);
            },
            Ok(_) => {},
        }
        let config = AmmConfig {
            bump: bytes[8],
            index: read_u16(bytes, 9),
            owner: read_address(bytes, 11),
            protocol_fee_rate: read_u32(bytes, 43),
            trade_fee_rate: read_u32(bytes, 47),
            tick_spacing: read_u16(bytes, 51),
            fund_fee_rate: read_u32(bytes, 53),
            fund_owner: read_address(bytes, 61),
        };
        assert(config@ =~= AmmConfigView::at(bytes@));
        Ok(config)
    }
}

/// What a position holds, as mathematical values.
#[verifier::ext_equal]
pub struct PersonalPositionStateView {
    pub bump: u8,
    pub nft_mint: Seq<u8>,
    pub pool_id: Seq<u8>,
    pub tick_lower_index: i32,
    pub tick_upper_index: i32,
    pub liquidity: u128,
    pub token_fees_owed_0: u64,
    pub token_fees_owed_1: u64,
}

impl View for PersonalPositionState {
    type V = PersonalPositionStateView;

    open spec fn view(&self) -> PersonalPositionStateView {
        PersonalPositionStateView {
            bump: self.bump,
            nft_mint: self.nft_mint@,
            pool_id: self.pool_id@,
            tick_lower_index: self.tick_lower_index,
            tick_upper_index: self.tick_upper_index,
            liquidity: self.liquidity,
            token_fees_owed_0: self.token_fees_owed_0,
            token_fees_owed_1: self.token_fees_owed_1,
        }
    }
}

/// Bytes of the record of a position.
pub const PERSONAL_POSITION_LEN: usize = 281;

/// The tag of the record of a position: its first eight bytes, 70, 111, 150, 126, 230, 15, 25, 117,
/// as a number, least significant byte first.
pub const PERSONAL_POSITION_TAG: u64 = 0x75190fe67e966f46;

impl PersonalPositionStateView {
    /// The addresses have 32 bytes each.
    pub open spec fn valid(self) -> bool {
        self.nft_mint.len() == 32 && self.pool_id.len() == 32
    }

    /// The record of a position.
    pub open spec fn encoded(self) -> Seq<u8> {
        le_bytes(PERSONAL_POSITION_TAG as nat, 8) + seq![self.bump] + self.nft_mint + self.pool_id + le_bytes(
            to_twos(self.tick_lower_index as int, 4),
            4,
        ) + le_bytes(to_twos(self.tick_upper_index as int, 4), 4) + le_bytes(
            self.liquidity as nat,
            16,
        ) + zeros(32) + le_bytes(self.token_fees_owed_0 as nat, 8) + le_bytes(
            self.token_fees_owed_1 as nat,
            8,
        ) + zeros(136)
    }

    /// The fields of a position read from their fixed places in a record.
    pub open spec fn at(bytes: Seq<u8>) -> PersonalPositionStateView {
        PersonalPositionStateView {
            bump: bytes[8],
            nft_mint: bytes.subrange(9, 41),
            pool_id: bytes.subrange(41, 73),
            tick_lower_index: int_at(bytes, 73, 4) as i32,
            tick_upper_index: int_at(bytes, 77, 4) as i32,
            liquidity: uint_at(bytes, 81, 16) as u128,
            token_fees_owed_0: uint_at(bytes, 129, 8) as u64,
            token_fees_owed_1: uint_at(bytes, 137, 8) as u64,
        }
    }

    /// What decoding a record as a position gives.
    pub open spec fn decoded(bytes: Seq<u8>) -> Result<PersonalPositionStateView, Error> {
        match header_check(bytes, PERSONAL_POSITION_TAG, 281) {
            Err(e) => Err(e),
            Ok(_) => Ok(Self::at(bytes)),
        }
    }

    /// Decoding the record of a position gives the position back.
    pub proof fn lemma_round_trip(self)
        requires
            self.valid(),
        ensures
            self.encoded().len() == 281,
            Self::decoded(self.encoded()) == Ok::<PersonalPositionStateView, Error>(self),
    {
        let whole = self.encoded();
        lemma_pow256_values();
        lemma_le_round_trip_exact(PERSONAL_POSITION_TAG as nat, 8);
        lemma_pow256_values();
        lemma_twos_round_trip(self.tick_lower_index as int, 4);
        lemma_twos_round_trip(self.tick_upper_index as int, 4);
        lemma_le_round_trip_exact(to_twos(self.tick_lower_index as int, 4), 4);
        lemma_le_round_trip_exact(to_twos(self.tick_upper_index as int, 4), 4);
        lemma_le_round_trip_exact(self.liquidity as nat, 16);
        lemma_le_round_trip_exact(self.token_fees_owed_0 as nat, 8);
        lemma_le_round_trip_exact(self.token_fees_owed_1 as nat, 8);
        assert(whole.len() == 281);
        assert(whole.subrange(0, 8) =~= le_bytes(PERSONAL_POSITION_TAG as nat, 8));
        let got = Self::at(whole);
        assert(got.nft_mint =~= self.nft_mint);
        assert(got.pool_id =~= self.pool_id);
        assert(whole.subrange(73, 77) =~= le_bytes(to_twos(self.tick_lower_index as int, 4), 4));
        assert(whole.subrange(77, 81) =~= le_bytes(to_twos(self.tick_upper_index as int, 4), 4));
        assert(whole.subrange(81, 97) =~= le_bytes(self.liquidity as nat, 16));
        assert(whole.subrange(129, 137) =~= le_bytes(self.token_fees_owed_0 as nat, 8));
        assert(whole.subrange(137, 145) =~= le_bytes(self.token_fees_owed_1 as nat, 8));
        assert(got =~= self);
    }
}

impl PersonalPositionState {
    /// The record of this position.
    pub fn encode(&self) -> (bytes: Vec<u8>)
        ensures
            bytes@ == self@.encoded(),
    {
        let mut out: Vec<u8> = Vec::new();
        put_u64(&mut out, PERSONAL_POSITION_TAG);
        assert(out@ =~= le_bytes(PERSONAL_POSITION_TAG as nat, 8));
        put_u8(&mut out, self.bump);
        put_address(&mut out, &self.nft_mint);
        put_address(&mut out, &self.pool_id);
        put_i32(&mut out, self.tick_lower_index);
        put_i32(&mut out, self.tick_upper_index);
        put_u128(&mut out, self.liquidity);
        put_zeros(&mut out, 32);
        put_u64(&mut out, self.token_fees_owed_0);
        put_u64(&mut out, self.token_fees_owed_1);
        put_zeros(&mut out, 136);
        out
    }

    /// Decodes the record of a position.
    pub fn decode(bytes: &[u8]) -> (position: Result<PersonalPositionState, Error>)
        ensures
            result_view(position) == PersonalPositionStateView::decoded(bytes@),
    {
        match check_header(bytes, PERSONAL_POSITION_TAG, PERSONAL_POSITION_LEN) {
            Err(e) => {
                return Err(e);
            },
            Ok(_) => {},
        }
        let position = PersonalPositionState {
            bump: bytes[8],
            nft_mint: read_address(bytes, 9),
            pool_id: read_address(bytes, 41),
            tick_lower_index: read_i32(bytes, 73),
            tick_upper_index: read_i32(bytes, 77),
            liquidity: read_u128(bytes, 81),
            token_fees_owed_0: read_u64(bytes, 129),
            token_fees_owed_1: read_u64(bytes, 137),
        };
        assert(position@ =~= PersonalPositionStateView::at(bytes@));
        Ok(position)
    }
}

/// The rows of one side of a bitmap extension as one list of words, row after row.
pub open spec fn flat_rows(rows: &[[u64; 8]; 14]) -> Seq<u64> {
    Seq::new(112, |k: int| rows@[k / 8]@[k % 8])
}

/// The rows of one side of a bitmap extension as one list of words.
pub fn flatten_rows(rows: &[[u64; 8]; 14]) -> (flat: Vec<u64>)
    ensures
        flat@ == flat_rows(rows),
{
    let mut flat: Vec<u64> = Vec::new();
    let mut k: usize = 0;
    while k < 112
        invariant
            k <= 112,
            flat@.len() == k,
            forall|j: int| 0 <= j < k ==> flat@[j] == rows@[j / 8]@[j % 8],
        decreases 112 - k,
    {
        flat.push(rows[k / 8][k % 8]);
        k += 1;
    }
    assert(flat@ =~= flat_rows(rows));
    flat
}

/// The rows of one side of a bitmap extension, from one list of words.
pub fn rows_from_flat(flat: &Vec<u64>) -> (rows: [[u64; 8]; 14])
    requires
        flat@.len() == 112,
    ensures
        flat_rows(&rows) == flat@,
{
    let mut rows = [[0u64; 8]; 14];
    let mut r: usize = 0;
    while r < 14
        invariant
            r <= 14,
            flat@.len() == 112,
            forall|a: int, b: int|
                0 <= a < r && 0 <= b < 8 ==> #[trigger] rows@[a]@[b] == flat@[a * 8 + b],
        decreases 14 - r,
    {
        let mut row = [0u64; 8];
        let mut i: usize = 0;
        while i < 8
            invariant
                i <= 8,
                r < 14,
                flat@.len() == 112,
                forall|b: int| 0 <= b < i ==> row@[b] == flat@[r * 8 + b],
            decreases 8 - i,
        {
            row[i] = flat[r * 8 + i];
            i += 1;
        }
        rows[r] = row;
        r += 1;
    }
    assert forall|k: int| 0 <= k < 112 implies flat_rows(&rows)[k] == flat@[k] by {
        let a = k / 8;
        let b = k % 8;
        assert(rows@[a]@[b] == flat@[a * 8 + b]);
    }
    assert(flat_rows(&rows) =~= flat@);
    rows
}

/// What a bitmap extension holds, as mathematical values: each side as one
/// list of 112 words, row after row.
#[verifier::ext_equal]
pub struct TickArrayBitmapExtensionView {
    pub pool_id: Seq<u8>,
    pub positive: Seq<u64>,
    pub negative: Seq<u64>,
}

impl View for TickArrayBitmapExtension {
    type V = TickArrayBitmapExtensionView;

    open spec fn view(&self) -> TickArrayBitmapExtensionView {
        TickArrayBitmapExtensionView {
            pool_id: self.pool_id@,
            positive: flat_rows(&self.positive_tick_array_bitmap),
            negative: flat_rows(&self.negative_tick_array_bitmap),
        }
    }
}

/// Bytes of the record of a bitmap extension.
pub const BITMAP_EXTENSION_LEN: usize = 1832;

/// The tag of the record of a bitmap extension: its first eight bytes, 60, 150, 36, 219, 97, 128, 139, 153,
/// as a number, least significant byte first.
pub const BITMAP_EXTENSION_TAG: u64 = 0x998b8061db24963c;

impl TickArrayBitmapExtensionView {
    /// The address has 32 bytes and each side has 112 words.
    pub open spec fn valid(self) -> bool {
        self.pool_id.len() == 32 && self.positive.len() == 112 && self.negative.len() == 112
    }

    /// The record of a bitmap extension.
    pub open spec fn encoded(self) -> Seq<u8> {
        le_bytes(BITMAP_EXTENSION_TAG as nat, 8) + self.pool_id + words_bytes(self.positive) + words_bytes(
            self.negative,
        )
    }

    /// The fields of a bitmap extension read from their fixed places in a record.
    pub open spec fn at(bytes: Seq<u8>) -> TickArrayBitmapExtensionView {
        TickArrayBitmapExtensionView {
            pool_id: bytes.subrange(8, 40),
            positive: words_at(bytes, 40, 112),
            negative: words_at(bytes, 936, 112),
        }
    }

    /// What decoding a record as a bitmap extension gives.
    pub open spec fn decoded(bytes: Seq<u8>) -> Result<TickArrayBitmapExtensionView, Error> {
        match header_check(bytes, BITMAP_EXTENSION_TAG, 1832) {
            Err(e) => Err(e),
            Ok(_) => Ok(Self::at(bytes)),
        }
    }

    /// Decoding the record of a bitmap extension gives the extension back.
    pub proof fn lemma_round_trip(self)
        requires
            self.valid(),
        ensures
            self.encoded().len() == 1832,
            Self::decoded(self.encoded()) == Ok::<TickArrayBitmapExtensionView, Error>(self),
    {
        let whole = self.encoded();
        lemma_pow256_values();
        lemma_le_round_trip_exact(BITMAP_EXTENSION_TAG as nat, 8);
        lemma_words_bytes_len(self.positive);
        lemma_words_bytes_len(self.negative);
        assert(whole.len() == 1832);
        assert(whole.subrange(0, 8) =~= le_bytes(BITMAP_EXTENSION_TAG as nat, 8));
        let got = Self::at(whole);
        assert(got.pool_id =~= self.pool_id);
        assert(whole.subrange(40, 936) =~= words_bytes(self.positive));
        assert(whole.subrange(936, 1832) =~= words_bytes(self.negative));
        lemma_words_round_trip(whole, 40, self.positive);
        lemma_words_round_trip(whole, 936, self.negative);
        assert(got =~= self);
    }
}

impl TickArrayBitmapExtension {
    /// The record of this bitmap extension.
    pub fn encode(&self) -> (bytes: Vec<u8>)
        ensures
            bytes@ == self@.encoded(),
    {
        let mut out: Vec<u8> = Vec::new();
        put_u64(&mut out, BITMAP_EXTENSION_TAG);
        assert(out@ =~= le_bytes(BITMAP_EXTENSION_TAG as nat, 8));
        put_address(&mut out, &self.pool_id);
        let positive = flatten_rows(&self.positive_tick_array_bitmap);
        put_words(&mut out, positive.as_slice());
        let negative = flatten_rows(&self.negative_tick_array_bitmap);
        put_words(&mut out, negative.as_slice());
        out
    }

    /// Decodes the record of a bitmap extension.
    pub fn decode(bytes: &[u8]) -> (extension: Result<TickArrayBitmapExtension, Error>)
        ensures
            result_view(extension) == TickArrayBitmapExtensionView::decoded(bytes@),
    {
        match check_header(bytes, BITMAP_EXTENSION_TAG, BITMAP_EXTENSION_LEN) {
            Err(e) => {
                return Err(e);
            },
            Ok(_) => {},
        }
        let positive = read_words(bytes, 40, 112);
        let negative = read_words(bytes, 936, 112);
        let extension = TickArrayBitmapExtension {
            pool_id: read_address(bytes, 8),
            positive_tick_array_bitmap: rows_from_flat(&positive),
            negative_tick_array_bitmap: rows_from_flat(&negative),
        };
        assert(extension@ =~= TickArrayBitmapExtensionView::at(bytes@));
        Ok(extension)
    }
}

/// One tick as bytes: its index, its net and gross liquidity, and zero in the
/// bytes that this client does not read.
pub open spec fn tick_bytes(tick: TickState) -> Seq<u8> {
    le_bytes(to_twos(tick.tick as int, 4), 4) + le_bytes(to_twos(tick.liquidity_net as int, 16), 16)
        + le_bytes(tick.liquidity_gross as nat, 16) + zeros(132)
}

/// The tick whose bytes begin at `at`.
pub open spec fn tick_at(bytes: Seq<u8>, at: int) -> TickState {
    TickState {
        tick: int_at(bytes, at, 4) as i32,
        liquidity_net: int_at(bytes, at + 4, 16) as i128,
        liquidity_gross: uint_at(bytes, at + 20, 16) as u128,
    }
}

/// The bytes of each tick of a list.
pub open spec fn tick_parts(ticks: Seq<TickState>) -> Seq<Seq<u8>> {
    Seq::new(ticks.len(), |i: int| tick_bytes(ticks[i]))
}

/// A list of ticks as bytes.
pub open spec fn ticks_bytes(ticks: Seq<TickState>) -> Seq<u8> {
    concat_all(tick_parts(ticks))
}

/// The `n` ticks whose bytes begin at `at`.
pub open spec fn ticks_at(bytes: Seq<u8>, at: int, n: nat) -> Seq<TickState> {
    Seq::new(n, |i: int| tick_at(bytes, at + 168 * i))
}

/// A tick takes 168 bytes and is read back from them as it was.
pub proof fn lemma_tick_round_trip(tick: TickState)
    ensures
        tick_bytes(tick).len() == 168,
        tick_at(tick_bytes(tick), 0) == tick,
{
    let whole = tick_bytes(tick);
    lemma_pow256_values();
    lemma_twos_round_trip(tick.tick as int, 4);
    lemma_twos_round_trip(tick.liquidity_net as int, 16);
    lemma_le_round_trip_exact(to_twos(tick.tick as int, 4), 4);
    lemma_le_round_trip_exact(to_twos(tick.liquidity_net as int, 16), 16);
    lemma_le_round_trip_exact(tick.liquidity_gross as nat, 16);
    assert(whole.subrange(0, 4) =~= le_bytes(to_twos(tick.tick as int, 4), 4));
    assert(whole.subrange(4, 20) =~= le_bytes(to_twos(tick.liquidity_net as int, 16), 16));
    assert(whole.subrange(20, 36) =~= le_bytes(tick.liquidity_gross as nat, 16));
}

/// A list of ticks takes 168 bytes for each tick.
pub proof fn lemma_ticks_bytes_len(ticks: Seq<TickState>)
    ensures
        ticks_bytes(ticks).len() == 168 * ticks.len(),
{
    let parts = tick_parts(ticks);
    assert forall|j: int| 0 <= j < parts.len() implies (#[trigger] parts[j]).len() == 168 by {
        lemma_tick_round_trip(ticks[j]);
    }
    lemma_concat_all_len(parts, 168);
}

/// Ticks written into a record are read back as they were.
pub proof fn lemma_ticks_round_trip(whole: Seq<u8>, at: int, ticks: Seq<TickState>)
    requires
        0 <= at,
        at + 168 * ticks.len() <= whole.len(),
        whole.subrange(at, at + 168 * ticks.len()) == ticks_bytes(ticks),
    ensures
        ticks_at(whole, at, ticks.len()) == ticks,
{
    let parts = tick_parts(ticks);
    assert forall|j: int| 0 <= j < parts.len() implies (#[trigger] parts[j]).len() == 168 by {
        lemma_tick_round_trip(ticks[j]);
    }
    assert forall|i: int| 0 <= i < ticks.len() implies ticks_at(whole, at, ticks.len())[i]
        == ticks[i] by {
        lemma_concat_all_chunk(parts, 168, i);
        lemma_tick_round_trip(ticks[i]);
        let chunk = tick_bytes(ticks[i]);
        let base = at + 168 * i;
        assert(whole.subrange(base, base + 168) =~= whole.subrange(
            at,
            at + 168 * ticks.len(),
        ).subrange(i * 168, i * 168 + 168));
        assert(whole.subrange(base, base + 4) =~= chunk.subrange(0, 4));
        assert(whole.subrange(base + 4, base + 4 + 16) =~= chunk.subrange(4, 20));
        assert(whole.subrange(base + 20, base + 20 + 16) =~= chunk.subrange(20, 36));
    }
    assert(ticks_at(whole, at, ticks.len()) =~= ticks);
}

/// What a tick array holds, as mathematical values.
#[verifier::ext_equal]
pub struct TickArrayStateView {
    pub pool_id: Seq<u8>,
    pub start_tick_index: i32,
    pub ticks: Seq<TickState>,
    pub initialized_tick_count: u8,
}

impl View for TickArrayState {
    type V = TickArrayStateView;

    open spec fn view(&self) -> TickArrayStateView {
        TickArrayStateView {
            pool_id: self.pool_id@,
            start_tick_index: self.start_tick_index,
            ticks: self.ticks@,
            initialized_tick_count: self.initialized_tick_count,
        }
    }
}

/// Bytes of the record of a tick array.
pub const TICK_ARRAY_LEN: usize = 10240;

/// The tag of the record of a tick array: its first eight bytes, 192, 155, 85, 205, 49, 249, 129, 42,
/// as a number, least significant byte first.
pub const TICK_ARRAY_TAG: u64 = 0x2a81f931cd559bc0;

impl TickArrayStateView {
    /// The address has 32 bytes and the array has sixty ticks.
    pub open spec fn valid(self) -> bool {
        self.pool_id.len() == 32 && self.ticks.len() == 60
    }

    /// The record of a tick array.
    pub open spec fn encoded(self) -> Seq<u8> {
        le_bytes(TICK_ARRAY_TAG as nat, 8) + self.pool_id + le_bytes(to_twos(self.start_tick_index as int, 4), 4)
            + ticks_bytes(self.ticks) + seq![self.initialized_tick_count] + zeros(115)
    }

    /// The fields of a tick array read from their fixed places in a record.
    pub open spec fn at(bytes: Seq<u8>) -> TickArrayStateView {
        TickArrayStateView {
            pool_id: bytes.subrange(8, 40),
            start_tick_index: int_at(bytes, 40, 4) as i32,
            ticks: ticks_at(bytes, 44, 60),
            initialized_tick_count: bytes[10124],
        }
    }

    /// What decoding a record as a tick array gives.
    pub open spec fn decoded(bytes: Seq<u8>) -> Result<TickArrayStateView, Error> {
        match header_check(bytes, TICK_ARRAY_TAG, 10240) {
            Err(e) => Err(e),
            Ok(_) => Ok(Self::at(bytes)),
        }
    }

    /// Decoding the record of a tick array gives the tick array back.
    pub proof fn lemma_round_trip(self)
        requires
            self.valid(),
        ensures
            self.encoded().len() == 10240,
            Self::decoded(self.encoded()) == Ok::<TickArrayStateView, Error>(self),
    {
        let whole = self.encoded();
        lemma_pow256_values();
        lemma_le_round_trip_exact(TICK_ARRAY_TAG as nat, 8);
        lemma_pow256_values();
        lemma_twos_round_trip(self.start_tick_index as int, 4);
        lemma_le_round_trip_exact(to_twos(self.start_tick_index as int, 4), 4);
        lemma_ticks_bytes_len(self.ticks);
        assert(whole.len() == 10240);
        assert(whole.subrange(0, 8) =~= le_bytes(TICK_ARRAY_TAG as nat, 8));
        let got = Self::at(whole);
        assert(got.pool_id =~= self.pool_id);
        assert(whole.subrange(40, 44) =~= le_bytes(to_twos(self.start_tick_index as int, 4), 4));
        assert(whole.subrange(44, 10124) =~= ticks_bytes(self.ticks));
        lemma_ticks_round_trip(whole, 44, self.ticks);
        assert(got =~= self);
    }
}

/// Appends one tick.
pub fn put_tick(out: &mut Vec<u8>, tick: &TickState)
    ensures
        final(out)@ == old(out)@ + tick_bytes(*tick),
{
    put_i32(out, tick.tick);
    put_i128(out, tick.liquidity_net);
    put_u128(out, tick.liquidity_gross);
    put_zeros(out, 132);
    assert(out@ =~= old(out)@ + tick_bytes(*tick));
}

/// The tick whose bytes begin at `at`.
pub fn read_tick(bytes: &[u8], at: usize) -> (tick: TickState)
    requires
        at + 168 <= bytes@.len(),
    ensures
        tick == tick_at(bytes@, at as int),
{
    let len: usize = bytes.len();
    assert(at + 168 <= len);
    TickState {
        tick: read_i32(bytes, at),
        liquidity_net: read_i128(bytes, at + 4),
        liquidity_gross: read_u128(bytes, at + 20),
    }
}

impl TickArrayState {
    /// The record of this tick array.
    pub fn encode(&self) -> (bytes: Vec<u8>)
        ensures
            bytes@ == self@.encoded(),
    {
        let mut out: Vec<u8> = Vec::new();
        put_u64(&mut out, TICK_ARRAY_TAG);
        assert(out@ =~= le_bytes(TICK_ARRAY_TAG as nat, 8));
        put_address(&mut out, &self.pool_id);
        put_i32(&mut out, self.start_tick_index);
        let ghost head = out@;
        let mut i: usize = 0;
        assert(tick_parts(self.ticks@.subrange(0, 0)) =~= Seq::<Seq<u8>>::empty());
        assert(out@ =~= head + ticks_bytes(self.ticks@.subrange(0, 0)));
        while i < 60
            invariant
                i <= 60,
                out@ == head + ticks_bytes(self.ticks@.subrange(0, i as int)),
            decreases 60 - i,
        {
            put_tick(&mut out, &self.ticks[i]);
            proof {
                let shorter = tick_parts(self.ticks@.subrange(0, i as int));
                let longer = tick_parts(self.ticks@.subrange(0, i + 1));
                assert(longer.drop_last() =~= shorter);
                assert(longer.last() == tick_bytes(self.ticks@[i as int]));
                assert(out@ =~= head + ticks_bytes(self.ticks@.subrange(0, i + 1)));
            }
            i += 1;
        }
        assert(self.ticks@.subrange(0, 60) =~= self.ticks@);
        put_u8(&mut out, self.initialized_tick_count);
        put_zeros(&mut out, 115);
        out
    }

    /// Decodes the record of a tick array.
    pub fn decode(bytes: &[u8]) -> (array: Result<TickArrayState, Error>)
        ensures
            result_view(array) == TickArrayStateView::decoded(bytes@),
    {
        match check_header(bytes, TICK_ARRAY_TAG, TICK_ARRAY_LEN) {
            Err(e) => {
                return Err(e);
            },
            Ok(_) => {},
        }
        let mut ticks = [TickState { tick: 0, liquidity_net: 0, liquidity_gross: 0 };60];
        let mut i: usize = 0;
        while i < 60
            invariant
                i <= 60,
                bytes@.len() >= 10240,
                forall|j: int| 0 <= j < i ==> ticks@[j] == tick_at(bytes@, 44 + 168 * j),
            decreases 60 - i,
        {
            ticks[i] = read_tick(bytes, 44 + 168 * i);
            i += 1;
        }
        assert(ticks@ =~= ticks_at(bytes@, 44, 60));
        let array = TickArrayState {
            pool_id: read_address(bytes, 8),
            start_tick_index: read_i32(bytes, 40),
            ticks,
            initialized_tick_count: bytes[10124],
        };
        assert(array@ =~= TickArrayStateView::at(bytes@));
        Ok(array)
    }
}

/// What decoding the accounts fetched for a route gives: the tick arrays in
/// the order of the route, or the error of the first account that is absent
/// or cannot be decoded.
pub open spec fn loaded_tick_arrays(accounts: Seq<Option<Seq<u8>>>) -> Result<
    Seq<TickArrayStateView>,
    Error,
>
    decreases accounts.len(),
{
    if accounts.len() == 0 {
        Ok(Seq::empty())
    } else {
        match loaded_tick_arrays(accounts.drop_last()) {
            Err(e) => Err(e),
            Ok(arrays) => match accounts.last() {
                None => Err(Error::MissingAccount),
                Some(bytes) => match TickArrayStateView::decoded(bytes) {
                    Err(e) => Err(e),
                    Ok(array) => Ok(arrays.push(array)),
                },
            },
        }
    }
}

/// The accounts of a list as mathematical values.
pub open spec fn account_views(accounts: Seq<Option<Vec<u8>>>) -> Seq<Option<Seq<u8>>> {
    Seq::new(
        accounts.len(),
        |i: int|
            match accounts[i] {
                Some(bytes) => Some(bytes@),
                None => None,
            },
    )
}

/// The tick arrays of a list as mathematical values.
pub open spec fn tick_array_views(arrays: Seq<TickArrayState>) -> Seq<TickArrayStateView> {
    Seq::new(arrays.len(), |i: int| arrays[i]@)
}

/// An error among the first accounts is the error of the whole list.
proof fn lemma_loaded_fail(accounts: Seq<Option<Seq<u8>>>, n: int)
    requires
        0 <= n <= accounts.len(),
        loaded_tick_arrays(accounts.subrange(0, n)) is Err,
    ensures
        loaded_tick_arrays(accounts) == loaded_tick_arrays(accounts.subrange(0, n)),
    decreases accounts.len() - n,
{
    if n == accounts.len() {
        assert(accounts.subrange(0, n) =~= accounts);
    } else {
        let longer = accounts.subrange(0, n + 1);
        assert(longer.drop_last() =~= accounts.subrange(0, n));
        lemma_loaded_fail(accounts, n + 1);
    }
}

/// Decodes the accounts that were fetched for the tick arrays of a route, in
/// one answer of the ledger. An account that the ledger does not hold is
/// reported as missing.
pub fn load_tick_arrays(accounts: &Vec<Option<Vec<u8>>>) -> (arrays: Result<
    Vec<TickArrayState>,
    Error,
>)
    ensures
        match arrays {
            Ok(found) => Ok::<Seq<TickArrayStateView>, Error>(tick_array_views(found@)),
            Err(e) => Err::<Seq<TickArrayStateView>, Error>(e),
        } == loaded_tick_arrays(account_views(accounts@)),
{
    let ghost views = account_views(accounts@);
    let mut found: Vec<TickArrayState> = Vec::new();
    let mut i: usize = 0;
    assert(views.subrange(0, 0) =~= Seq::<Option<Seq<u8>>>::empty());
    assert(tick_array_views(found@) =~= Seq::<TickArrayStateView>::empty());
    while i < accounts.len()
        invariant
            i <= accounts@.len(),
            views == account_views(accounts@),
            Ok::<Seq<TickArrayStateView>, Error>(tick_array_views(found@)) == loaded_tick_arrays(
                views.subrange(0, i as int),
            ),
        decreases accounts@.len() - i,
    {
        let ghost prefix = views.subrange(0, i + 1);
        proof {
            assert(prefix.drop_last() =~= views.subrange(0, i as int));
            assert(prefix.last() == views[i as int]);
        }
        match &accounts[i] {
            None => {
                proof {
                    lemma_loaded_fail(views, i + 1);
                }
                return Err(Error::MissingAccount);
            },
            Some(bytes) => match TickArrayState::decode(bytes.as_slice()) {
                Err(e) => {
                    proof {
                        lemma_loaded_fail(views, i + 1);
                    }
                    return Err(e);
                },
                Ok(array) => {
                    let ghost before = found@;
                    found.push(array);
                    assert(tick_array_views(found@) =~= tick_array_views(before).push(array@));
                },
            },
        }
        i += 1;
    }
    assert(views.subrange(0, i as int) =~= views);
    Ok(found)
}

/// Every pool snapshot has a record, and decoding the record gives the snapshot back.
pub proof fn lemma_pool_state_round_trip(pool: PoolState)
    ensures
        PoolStateView::decoded(pool@.encoded()) == Ok::<PoolStateView, Error>(pool@),
{
    pool@.lemma_round_trip();
}

/// Decoding the record of a fee configuration gives the configuration back.
pub proof fn lemma_amm_config_round_trip(config: AmmConfig)
    ensures
        AmmConfigView::decoded(config@.encoded()) == Ok::<AmmConfigView, Error>(config@),
{
    config@.lemma_round_trip();
}

/// Decoding the record of a position gives the position back.
pub proof fn lemma_personal_position_round_trip(position: PersonalPositionState)
    ensures
        PersonalPositionStateView::decoded(position@.encoded()) == Ok::<
            PersonalPositionStateView,
            Error,
        >(position@),
{
    position@.lemma_round_trip();
}

/// Decoding the record of a bitmap extension gives the extension back.
pub proof fn lemma_bitmap_extension_round_trip(extension: TickArrayBitmapExtension)
    ensures
        TickArrayBitmapExtensionView::decoded(extension@.encoded()) == Ok::<
            TickArrayBitmapExtensionView,
            Error,
        >(extension@),
{
    extension@.lemma_round_trip();
}

/// Decoding the record of a tick array gives the tick array back.
pub proof fn lemma_tick_array_round_trip(array: TickArrayState)
    ensures
        TickArrayStateView::decoded(array@.encoded()) == Ok::<TickArrayStateView, Error>(array@),
{
    array@.lemma_round_trip();
}

} // verus!
