use clmm_client::accounts::{
    flatten_rows, load_tick_arrays, rows_from_flat, AMM_CONFIG_LEN, AMM_CONFIG_TAG,
    BITMAP_EXTENSION_LEN, BITMAP_EXTENSION_TAG, PERSONAL_POSITION_LEN, PERSONAL_POSITION_TAG,
    POOL_STATE_LEN, POOL_STATE_TAG, TICK_ARRAY_LEN, TICK_ARRAY_TAG,
};
use clmm_client::address::Address;
use clmm_client::codec::{check_header, put_words, read_words};
use clmm_client::error::Error;
use clmm_client::state::{
    AmmConfig, PersonalPositionState, PoolState, TickArrayBitmapExtension, TickArrayState,
    TickState,
};
use clmm_client::wire::{
    be_vec, put_i128, put_i32, put_le, put_u16, read_i128, read_i32, read_le, read_u16,
    twos_i128, twos_i32, untwos_i128, untwos_i32,
};
use sha2::{Digest, Sha256};

fn key(n: u8) -> Address {
    let mut bytes = [n; 32];
    bytes[0] = n.wrapping_add(1);
    Address::new(bytes)
}

fn tag_of_name(namespace: &str, name: &str) -> u64 {
    let digest = Sha256::digest(format!("{}:{}", namespace, name).as_bytes());
    let mut first = [0u8; 8];
    first.copy_from_slice(&digest[..8]);
    u64::from_le_bytes(first)
}

fn sample_pool() -> PoolState {
    let mut bitmap = [0u64; 16];
    bitmap[0] = 1;
    bitmap[8] = 0b110;
    bitmap[15] = u64::MAX;
    PoolState {
        bump: 254,
        amm_config: key(1),
        owner: key(2),
        token_mint_0: key(3),
        token_mint_1: key(4),
        token_vault_0: key(5),
        token_vault_1: key(6),
        observation_key: key(7),
        mint_decimals_0: 6,
        mint_decimals_1: 9,
        tick_spacing: 10,
        liquidity: u128::MAX - 5,
        sqrt_price_x64: 79226673521066979257578248091,
        tick_current: -1234,
        tick_array_bitmap: bitmap,
    }
}

fn sample_tick_array() -> TickArrayState {
    let mut ticks = [TickState { tick: 0, liquidity_net: 0, liquidity_gross: 0 }; 60];
    for (i, tick) in ticks.iter_mut().enumerate() {
        tick.tick = 1200 + 10 * i as i32;
        tick.liquidity_net = if i % 2 == 0 { -(i as i128) - 1 } else { i as i128 };
        tick.liquidity_gross = (i as u128) << 100;
    }
    ticks[59].liquidity_net = i128::MIN;
    ticks[58].liquidity_net = i128::MAX;
    TickArrayState { pool_id: key(9), start_tick_index: 1200, ticks, initialized_tick_count: 60 }
}

#[test]
fn account_tags_are_the_hashes_of_their_names() {
    assert_eq!(POOL_STATE_TAG, tag_of_name("account", "PoolState"));
    assert_eq!(AMM_CONFIG_TAG, tag_of_name("account", "AmmConfig"));
    assert_eq!(TICK_ARRAY_TAG, tag_of_name("account", "TickArrayState"));
    assert_eq!(BITMAP_EXTENSION_TAG, tag_of_name("account", "TickArrayBitmapExtension"));
    assert_eq!(PERSONAL_POSITION_TAG, tag_of_name("account", "PersonalPositionState"));
    assert_eq!(POOL_STATE_TAG.to_le_bytes(), [247, 237, 227, 245, 215, 195, 222, 70]);
}

#[test]
fn pool_state_round_trip() {
    let pool = sample_pool();
    let bytes = pool.encode();
    assert_eq!(bytes.len(), POOL_STATE_LEN);
    assert_eq!(PoolState::decode(&bytes), Ok(pool));
}

#[test]
fn pool_state_fields_stand_at_their_places() {
    let bytes = sample_pool().encode();
    assert_eq!(&bytes[..8], &[247, 237, 227, 245, 215, 195, 222, 70]);
    assert_eq!(bytes[8], 254);
    assert_eq!(&bytes[9..41], &key(1).bytes);
    assert_eq!(&bytes[201..233], &key(7).bytes);
    assert_eq!(&bytes[235..237], &[10, 0]);
    assert_eq!(&bytes[269..273], &(-1234i32).to_le_bytes());
    assert_eq!(&bytes[904..912], &1u64.to_le_bytes());
    assert_eq!(&bytes[904 + 64..904 + 72], &6u64.to_le_bytes());
    assert!(bytes[273..904].iter().all(|b| *b == 0));
    assert!(bytes[1032..].iter().all(|b| *b == 0));
}

#[test]
fn pool_state_shorter_than_its_layout_is_truncated() {
    let bytes = sample_pool().encode();
    assert_eq!(PoolState::decode(&bytes[..POOL_STATE_LEN - 1]), Err(Error::TruncatedData));
    assert_eq!(PoolState::decode(&bytes[..8]), Err(Error::TruncatedData));
    assert_eq!(PoolState::decode(&[]), Err(Error::TruncatedData));
    assert_eq!(PoolState::decode(&[0u8; 100]), Err(Error::TruncatedData));
}

#[test]
fn pool_state_with_another_tag_is_unknown() {
    let mut bytes = sample_pool().encode();
    bytes[0] ^= 1;
    assert_eq!(PoolState::decode(&bytes), Err(Error::UnknownDiscriminator));
    let config = AmmConfig {
        bump: 1,
        index: 2,
        owner: key(1),
        protocol_fee_rate: 3,
        trade_fee_rate: 4,
        tick_spacing: 5,
        fund_fee_rate: 6,
        fund_owner: key(2),
    };
    let mut other = config.encode();
    other.resize(POOL_STATE_LEN, 0);
    assert_eq!(PoolState::decode(&other), Err(Error::UnknownDiscriminator));
}

#[test]
fn pool_state_ignores_bytes_beyond_its_layout() {
    let pool = sample_pool();
    let mut bytes = pool.encode();
    bytes.extend_from_slice(&[1, 2, 3]);
    assert_eq!(PoolState::decode(&bytes), Ok(pool));
}

#[test]
fn amm_config_round_trip() {
    let config = AmmConfig {
        bump: 253,
        index: 0x0102,
        owner: key(11),
        protocol_fee_rate: 120000,
        trade_fee_rate: 2500,
        tick_spacing: 60,
        fund_fee_rate: 40000,
        fund_owner: key(12),
    };
    let bytes = config.encode();
    assert_eq!(bytes.len(), AMM_CONFIG_LEN);
    assert_eq!(&bytes[9..11], &[2, 1]);
    assert_eq!(&bytes[51..53], &[60, 0]);
    assert_eq!(&bytes[61..93], &key(12).bytes);
    assert_eq!(AmmConfig::decode(&bytes), Ok(config));
    assert_eq!(AmmConfig::decode(&bytes[..116]), Err(Error::TruncatedData));
}

#[test]
fn personal_position_round_trip() {
    let position = PersonalPositionState {
        bump: 250,
        nft_mint: key(21),
        pool_id: key(22),
        tick_lower_index: -443630,
        tick_upper_index: 443630,
        liquidity: 1 << 127,
        token_fees_owed_0: u64::MAX,
        token_fees_owed_1: 7,
    };
    let bytes = position.encode();
    assert_eq!(bytes.len(), PERSONAL_POSITION_LEN);
    assert_eq!(&bytes[73..77], &(-443630i32).to_le_bytes());
    assert_eq!(&bytes[129..137], &u64::MAX.to_le_bytes());
    assert_eq!(PersonalPositionState::decode(&bytes), Ok(position));
    assert_eq!(PersonalPositionState::decode(&bytes[..280]), Err(Error::TruncatedData));
}

#[test]
fn bitmap_extension_round_trip() {
    let mut extension = TickArrayBitmapExtension {
        pool_id: key(31),
        positive_tick_array_bitmap: [[0u64; 8]; 14],
        negative_tick_array_bitmap: [[0u64; 8]; 14],
    };
    extension.positive_tick_array_bitmap[0][0] = 1;
    extension.positive_tick_array_bitmap[13][7] = 0xdead_beef;
    extension.negative_tick_array_bitmap[3][5] = u64::MAX;
    let bytes = extension.encode();
    assert_eq!(bytes.len(), BITMAP_EXTENSION_LEN);
    assert_eq!(&bytes[40..48], &1u64.to_le_bytes());
    assert_eq!(&bytes[936 - 8..936], &0xdead_beefu64.to_le_bytes());
    assert_eq!(&bytes[936 + (3 * 8 + 5) * 8..936 + (3 * 8 + 5) * 8 + 8], &u64::MAX.to_le_bytes());
    assert_eq!(TickArrayBitmapExtension::decode(&bytes), Ok(extension));
    assert_eq!(TickArrayBitmapExtension::decode(&bytes[..1831]), Err(Error::TruncatedData));
}

#[test]
fn tick_array_round_trip() {
    let array = sample_tick_array();
    let bytes = array.encode();
    assert_eq!(bytes.len(), TICK_ARRAY_LEN);
    assert_eq!(&bytes[40..44], &1200i32.to_le_bytes());
    assert_eq!(&bytes[44..48], &1200i32.to_le_bytes());
    assert_eq!(&bytes[44 + 168..44 + 172], &1210i32.to_le_bytes());
    assert_eq!(&bytes[48..64], &(-1i128).to_le_bytes());
    assert_eq!(bytes[10124], 60);
    assert_eq!(TickArrayState::decode(&bytes), Ok(array));
    assert_eq!(TickArrayState::decode(&bytes[..10239]), Err(Error::TruncatedData));
}

#[test]
fn tick_arrays_are_loaded_in_the_order_of_the_accounts() {
    let first = sample_tick_array();
    let mut second = sample_tick_array();
    second.start_tick_index = 600;
    let accounts = vec![Some(first.encode()), Some(second.encode())];
    assert_eq!(load_tick_arrays(&accounts), Ok(vec![first, second]));
    assert_eq!(load_tick_arrays(&vec![]), Ok(vec![]));
}

#[test]
fn an_absent_account_is_reported_as_missing() {
    let first = sample_tick_array();
    let accounts = vec![Some(first.encode()), None];
    assert_eq!(load_tick_arrays(&accounts), Err(Error::MissingAccount));
    let short = vec![Some(vec![1u8, 2, 3]), None];
    assert_eq!(load_tick_arrays(&short), Err(Error::TruncatedData));
    let other = vec![None, Some(vec![1u8, 2, 3])];
    assert_eq!(load_tick_arrays(&other), Err(Error::MissingAccount));
    let wrong = vec![Some(sample_pool().encode()), Some(first.encode())];
    assert_eq!(load_tick_arrays(&wrong), Err(Error::TruncatedData));
    let mut relabelled = first.encode();
    relabelled[3] ^= 0x10;
    assert_eq!(load_tick_arrays(&vec![Some(relabelled)]), Err(Error::UnknownDiscriminator));
}

#[test]
fn header_is_checked_for_length_before_tag() {
    assert_eq!(check_header(&[0u8; 7], 0, 8), Err(Error::TruncatedData));
    assert_eq!(check_header(&[0u8; 8], 0, 8), Ok(()));
    assert_eq!(check_header(&[0u8; 8], 1, 8), Err(Error::UnknownDiscriminator));
    assert_eq!(check_header(&[1, 0, 0, 0, 0, 0, 0, 0, 9], 1, 9), Ok(()));
    assert_eq!(check_header(&[1, 0, 0, 0, 0, 0, 0, 0], 2, 9), Err(Error::TruncatedData));
}

#[test]
fn numbers_are_written_least_significant_byte_first() {
    let mut out = vec![9u8];
    put_le(&mut out, 0x0102_0304, 4);
    assert_eq!(out, vec![9, 4, 3, 2, 1]);
    put_u16(&mut out, 0xabcd);
    assert_eq!(&out[5..], &[0xcd, 0xab]);
    assert_eq!(read_le(&out, 1, 4), 0x0102_0304);
    assert_eq!(read_u16(&out, 5), 0xabcd);
    assert_eq!(read_le(&out, 0, 0), 0);
    let mut wide = Vec::new();
    put_le(&mut wide, u128::MAX, 16);
    assert_eq!(wide, vec![255u8; 16]);
    assert_eq!(read_le(&wide, 0, 16), u128::MAX);
    let mut low = Vec::new();
    put_le(&mut low, 0x1234, 1);
    assert_eq!(low, vec![0x34]);
}

#[test]
fn seeds_are_written_most_significant_byte_first() {
    assert_eq!(be_vec(0x0102, 2), vec![1, 2]);
    assert_eq!(be_vec(1200, 4), vec![0, 0, 4, 176]);
    assert_eq!(be_vec(twos_i32(-1) as u128, 4), vec![255, 255, 255, 255]);
    assert_eq!(be_vec(5, 0), Vec::<u8>::new());
}

#[test]
fn signed_numbers_use_twos_complement() {
    assert_eq!(twos_i32(-1), u32::MAX);
    assert_eq!(twos_i32(i32::MIN), 1 << 31);
    assert_eq!(twos_i32(7), 7);
    assert_eq!(untwos_i32(u32::MAX), -1);
    assert_eq!(untwos_i32(1 << 31), i32::MIN);
    assert_eq!(untwos_i32(i32::MAX as u32), i32::MAX);
    assert_eq!(twos_i128(-1), u128::MAX);
    assert_eq!(twos_i128(i128::MIN), 1 << 127);
    assert_eq!(untwos_i128(u128::MAX), -1);
    assert_eq!(untwos_i128(1 << 127), i128::MIN);
    assert_eq!(untwos_i128(i128::MAX as u128), i128::MAX);
    let mut out = Vec::new();
    put_i32(&mut out, -2);
    put_i128(&mut out, -3);
    assert_eq!(&out[..4], &(-2i32).to_le_bytes());
    assert_eq!(&out[4..], &(-3i128).to_le_bytes());
    assert_eq!(read_i32(&out, 0), -2);
    assert_eq!(read_i128(&out, 4), -3);
}

#[test]
fn words_are_written_one_after_the_other() {
    let mut out = vec![7u8];
    put_words(&mut out, &[1, 0x0102_0304_0506_0708]);
    assert_eq!(out.len(), 17);
    assert_eq!(&out[1..9], &[1, 0, 0, 0, 0, 0, 0, 0]);
    assert_eq!(&out[9..], &[8, 7, 6, 5, 4, 3, 2, 1]);
    assert_eq!(read_words(&out, 1, 2), vec![1, 0x0102_0304_0506_0708]);
    assert_eq!(read_words(&out, 0, 0), Vec::<u64>::new());
}

#[test]
fn rows_are_flattened_row_after_row() {
    let mut rows = [[0u64; 8]; 14];
    rows[0][1] = 11;
    rows[2][3] = 23;
    rows[13][7] = 137;
    let flat = flatten_rows(&rows);
    assert_eq!(flat.len(), 112);
    assert_eq!(flat[1], 11);
    assert_eq!(flat[19], 23);
    assert_eq!(flat[111], 137);
    assert_eq!(rows_from_flat(&flat), rows);
}
