use clmm_client::address::{tick_array_address, Address};
use clmm_client::bitmap::{
    floor_div, get_first_initialized_tick_array, next_initialized_tick_array_start_index,
};
use clmm_client::config::ClientConfig;
use clmm_client::error::Error;
use clmm_client::router::{
    load_cur_and_next_five_tick_array_keys, tick_array_keys, tick_array_route,
    tick_array_start_indices, DEFAULT_LOOKAHEAD,
};
use clmm_client::state::{PoolState, TickArrayBitmapExtension};

fn key(n: u8) -> Address {
    Address::new([n; 32])
}

fn pool(tick_spacing: u16, tick_current: i32) -> PoolState {
    PoolState {
        bump: 255,
        amm_config: key(1),
        owner: key(2),
        token_mint_0: key(3),
        token_mint_1: key(4),
        token_vault_0: key(5),
        token_vault_1: key(6),
        observation_key: key(7),
        mint_decimals_0: 6,
        mint_decimals_1: 9,
        tick_spacing,
        liquidity: 1000,
        sqrt_price_x64: 1u128 << 64,
        tick_current,
        tick_array_bitmap: [0u64; 16],
    }
}

fn extension() -> TickArrayBitmapExtension {
    TickArrayBitmapExtension {
        pool_id: key(9),
        positive_tick_array_bitmap: [[0u64; 8]; 14],
        negative_tick_array_bitmap: [[0u64; 8]; 14],
    }
}

/// Marks the tick array at the given offset from tick zero as initialized.
fn mark(pool: &mut PoolState, ext: &mut TickArrayBitmapExtension, offset: i32) {
    if (-512..512).contains(&offset) {
        let bit = (offset + 512) as usize;
        pool.tick_array_bitmap[bit / 64] |= 1u64 << (bit % 64);
    } else if offset >= 512 {
        let row = (offset / 512 - 1) as usize;
        let bit = (offset % 512) as usize;
        ext.positive_tick_array_bitmap[row][bit / 64] |= 1u64 << (bit % 64);
    } else {
        let row = ((-offset - 1) / 512 - 1) as usize;
        let bit = offset.rem_euclid(512) as usize;
        ext.negative_tick_array_bitmap[row][bit / 64] |= 1u64 << (bit % 64);
    }
}

fn config(pool_id: Option<Address>) -> ClientConfig {
    ClientConfig {
        http_url: "http://localhost:8899".to_string(),
        ws_url: "ws://localhost:8900".to_string(),
        payer_path: "payer.json".to_string(),
        admin_path: "admin.json".to_string(),
        raydium_v3_program: key(42),
        slippage_bits: 0,
        amm_config_key: key(1),
        mint0: Some(key(3)),
        mint1: Some(key(4)),
        pool_id_account: pool_id,
        tickarray_bitmap_extension: Some(key(10)),
        amm_config_index: 0,
    }
}

#[test]
fn route_returns_the_only_array_above_and_stops() {
    let mut p = pool(10, 1234);
    let mut e = extension();
    mark(&mut p, &mut e, 1);
    mark(&mut p, &mut e, 2);
    assert_eq!(p.tick_array_bitmap[8], 0b110);
    let starts = tick_array_start_indices(&p, &e, false, DEFAULT_LOOKAHEAD);
    assert_eq!(starts, Ok(vec![1200]));
}

#[test]
fn route_walks_down_when_trading_zero_for_one() {
    let mut p = pool(10, 1234);
    let mut e = extension();
    mark(&mut p, &mut e, 1);
    mark(&mut p, &mut e, 2);
    let starts = tick_array_start_indices(&p, &e, true, DEFAULT_LOOKAHEAD);
    assert_eq!(starts, Ok(vec![1200, 600]));
}

#[test]
fn route_start_indices_are_multiples_of_the_array_width() {
    let mut p = pool(10, -7);
    let mut e = extension();
    for offset in [-3, -1, 0, 4, 9] {
        mark(&mut p, &mut e, offset);
    }
    let up = tick_array_start_indices(&p, &e, false, 5).unwrap();
    assert_eq!(up, vec![-600, 0, 2400, 5400]);
    let down = tick_array_start_indices(&p, &e, true, 5).unwrap();
    assert_eq!(down, vec![-600, -1800]);
    for start in up.iter().chain(down.iter()) {
        assert_eq!(start % 600, 0);
    }
}

#[test]
fn route_fails_without_any_initialized_array() {
    let p = pool(10, 1234);
    let e = extension();
    assert_eq!(
        tick_array_start_indices(&p, &e, false, 5),
        Err(Error::NoInitializedTickArray)
    );
    assert_eq!(
        tick_array_start_indices(&p, &e, true, 5),
        Err(Error::NoInitializedTickArray)
    );
}

#[test]
fn route_fails_when_arrays_lie_only_behind() {
    let mut p = pool(10, 1234);
    let mut e = extension();
    mark(&mut p, &mut e, 1);
    assert_eq!(
        tick_array_start_indices(&p, &e, false, 5),
        Err(Error::NoInitializedTickArray)
    );
    assert_eq!(tick_array_start_indices(&p, &e, true, 5), Ok(vec![600]));
}

#[test]
fn route_never_holds_more_than_six_arrays() {
    let mut p = pool(1, 0);
    let mut e = extension();
    for offset in 0..40 {
        mark(&mut p, &mut e, offset);
    }
    let starts = tick_array_start_indices(&p, &e, false, DEFAULT_LOOKAHEAD).unwrap();
    assert_eq!(starts, vec![0, 60, 120, 180, 240, 300]);
    let keys = load_cur_and_next_five_tick_array_keys(&config(Some(key(9))), &p, &e, false).unwrap();
    assert_eq!(keys.len(), 6);
}

#[test]
fn route_bound_is_configurable() {
    let mut p = pool(1, 0);
    let mut e = extension();
    for offset in 0..40 {
        mark(&mut p, &mut e, offset);
    }
    assert_eq!(tick_array_start_indices(&p, &e, false, 0), Ok(vec![0]));
    assert_eq!(tick_array_start_indices(&p, &e, false, 2), Ok(vec![0, 60, 120]));
    assert_eq!(
        tick_array_start_indices(&p, &e, false, 8).unwrap().len(),
        9
    );
}

#[test]
fn route_is_strictly_monotonic() {
    let mut p = pool(8, 100);
    let mut e = extension();
    for offset in [-700, -600, -20, -1, 0, 3, 511, 512, 700, 900] {
        mark(&mut p, &mut e, offset);
    }
    let up = tick_array_start_indices(&p, &e, false, 9).unwrap();
    assert_eq!(up, vec![0, 1440, 245280, 245760, 336000, 432000]);
    assert!(up.windows(2).all(|w| w[0] < w[1]));
    let down = tick_array_start_indices(&p, &e, true, 9).unwrap();
    assert_eq!(down, vec![0, -480, -9600, -288000, -336000]);
    assert!(down.windows(2).all(|w| w[0] > w[1]));
}

#[test]
fn route_reaches_into_the_extension() {
    let mut p = pool(1, 0);
    let mut e = extension();
    mark(&mut p, &mut e, 512);
    mark(&mut p, &mut e, 7000);
    mark(&mut p, &mut e, -513);
    mark(&mut p, &mut e, -1024);
    mark(&mut p, &mut e, -7394);
    assert_eq!(e.positive_tick_array_bitmap[0][0], 1);
    assert_eq!(e.negative_tick_array_bitmap[0][7], 1u64 << 63);
    assert_eq!(e.negative_tick_array_bitmap[0][0], 1);
    assert_eq!(
        tick_array_start_indices(&p, &e, false, 5),
        Ok(vec![512 * 60, 7000 * 60])
    );
    assert_eq!(
        tick_array_start_indices(&p, &e, true, 5),
        Ok(vec![-513 * 60, -1024 * 60, -7394 * 60])
    );
}

#[test]
fn route_ignores_bits_beyond_the_price_range() {
    let mut p = pool(1, 0);
    let mut e = extension();
    // 7394 * 60 lies above the highest tick.
    mark(&mut p, &mut e, 7394);
    mark(&mut p, &mut e, -7395);
    assert_eq!(
        tick_array_start_indices(&p, &e, false, 5),
        Err(Error::NoInitializedTickArray)
    );
    assert_eq!(
        tick_array_start_indices(&p, &e, true, 5),
        Err(Error::NoInitializedTickArray)
    );
    mark(&mut p, &mut e, 7393);
    assert_eq!(tick_array_start_indices(&p, &e, false, 5), Ok(vec![443580]));
}

#[test]
fn route_of_a_pool_without_tick_spacing_is_empty() {
    let mut p = pool(0, 0);
    let e = extension();
    p.tick_array_bitmap = [u64::MAX; 16];
    assert_eq!(
        tick_array_start_indices(&p, &e, false, 5),
        Err(Error::NoInitializedTickArray)
    );
    assert_eq!(next_initialized_tick_array_start_index(&p, &e, 0, true), None);
}

#[test]
fn first_array_tells_whether_it_holds_the_current_tick() {
    let mut p = pool(10, 1234);
    let mut e = extension();
    mark(&mut p, &mut e, 2);
    mark(&mut p, &mut e, 5);
    assert_eq!(get_first_initialized_tick_array(&p, &e, false), Ok((true, 1200)));
    assert_eq!(get_first_initialized_tick_array(&p, &e, true), Ok((true, 1200)));
    p.tick_current = 1900;
    assert_eq!(get_first_initialized_tick_array(&p, &e, false), Ok((false, 3000)));
    assert_eq!(get_first_initialized_tick_array(&p, &e, true), Ok((false, 1200)));
}

#[test]
fn first_array_of_a_negative_tick() {
    let mut p = pool(10, -1);
    let mut e = extension();
    mark(&mut p, &mut e, -1);
    assert_eq!(get_first_initialized_tick_array(&p, &e, false), Ok((true, -600)));
    p.tick_current = -601;
    assert_eq!(get_first_initialized_tick_array(&p, &e, false), Ok((false, -600)));
    assert_eq!(
        get_first_initialized_tick_array(&p, &e, true),
        Err(Error::NoInitializedTickArray)
    );
}

#[test]
fn next_array_is_strictly_beyond_the_given_one() {
    let mut p = pool(10, 0);
    let mut e = extension();
    mark(&mut p, &mut e, 1);
    mark(&mut p, &mut e, 2);
    assert_eq!(next_initialized_tick_array_start_index(&p, &e, 600, false), Some(1200));
    assert_eq!(next_initialized_tick_array_start_index(&p, &e, 1200, false), None);
    assert_eq!(next_initialized_tick_array_start_index(&p, &e, 1200, true), Some(600));
    assert_eq!(next_initialized_tick_array_start_index(&p, &e, 600, true), None);
    // A tick inside an array stands for the array that holds it.
    assert_eq!(next_initialized_tick_array_start_index(&p, &e, 1199, false), Some(1200));
    assert_eq!(next_initialized_tick_array_start_index(&p, &e, 1799, true), Some(600));
    assert_eq!(next_initialized_tick_array_start_index(&p, &e, i32::MAX, true), Some(1200));
    assert_eq!(next_initialized_tick_array_start_index(&p, &e, i32::MIN, false), Some(600));
}

#[test]
fn floor_div_rounds_towards_negative_infinity() {
    assert_eq!(floor_div(7, 2), 3);
    assert_eq!(floor_div(-7, 2), -4);
    assert_eq!(floor_div(-8, 2), -4);
    assert_eq!(floor_div(0, 5), 0);
    assert_eq!(floor_div(-1, 600), -1);
    assert_eq!(floor_div(i32::MIN, 1), i32::MIN);
    assert_eq!(floor_div(i32::MIN, i32::MAX), -2);
    assert_eq!(floor_div(-443636, 60), -7394);
}

#[test]
fn route_keys_are_the_tick_array_addresses_of_the_route() {
    let mut p = pool(10, 1234);
    let mut e = extension();
    mark(&mut p, &mut e, 1);
    mark(&mut p, &mut e, 2);
    let cfg = config(Some(key(9)));
    let keys = load_cur_and_next_five_tick_array_keys(&cfg, &p, &e, true).unwrap();
    let starts = tick_array_start_indices(&p, &e, true, 5).unwrap();
    assert_eq!(keys.len(), starts.len());
    for (found, start) in keys.iter().zip(starts.iter()) {
        let wanted = tick_array_address(&cfg.raydium_v3_program, &key(9), *start).unwrap();
        assert_eq!(*found, wanted.address);
    }
    assert_eq!(
        tick_array_keys(&cfg.raydium_v3_program, &key(9), &starts),
        Ok(keys)
    );
}

#[test]
fn route_keys_need_a_configured_pool() {
    let mut p = pool(10, 1234);
    let mut e = extension();
    mark(&mut p, &mut e, 2);
    assert_eq!(
        load_cur_and_next_five_tick_array_keys(&config(None), &p, &e, false),
        Err(Error::MissingAccount)
    );
    assert_eq!(
        tick_array_route(&config(None), &p, &e, false, 1),
        Err(Error::MissingAccount)
    );
}

#[test]
fn route_keys_fail_without_initialized_arrays() {
    let p = pool(10, 1234);
    let e = extension();
    assert_eq!(
        load_cur_and_next_five_tick_array_keys(&config(Some(key(9))), &p, &e, false),
        Err(Error::NoInitializedTickArray)
    );
}
