use clmm_client::error::Error;
use clmm_client::liquidity::{
    get_delta_amount_0_unsigned, get_delta_amount_1_unsigned, get_delta_amounts_signed,
    get_liquidity_from_amount_0, get_liquidity_from_amount_1, get_liquidity_from_single_amount_0,
    get_liquidity_from_single_amount_1, magnitude_of, plan_deposit, Deposit, Q64,
};
use clmm_client::tick::{MAX_SQRT_PRICE_X64, MIN_SQRT_PRICE_X64};
use clmm_client::tick_math::{factor, get_sqrt_price_at_tick, get_tick_at_sqrt_price};
use clmm_client::wide::{div_wide, mul_div_ceil, mul_div_floor, mul_wide, Wide};

const SQRT_LOWER: u128 = 18336400488125419788; // at tick -120
const SQRT_UPPER: u128 = 18669427295892893611; // at tick 240

#[test]
fn the_square_root_price_at_tick_zero_is_one() {
    assert_eq!(get_sqrt_price_at_tick(0), Ok(1u128 << 64));
    assert_eq!(Q64, 1u128 << 64);
}

#[test]
fn the_square_root_prices_at_the_ends_of_the_range() {
    assert_eq!(get_sqrt_price_at_tick(-443636), Ok(MIN_SQRT_PRICE_X64));
    assert_eq!(get_sqrt_price_at_tick(443636), Ok(MAX_SQRT_PRICE_X64));
    assert_eq!(get_sqrt_price_at_tick(-443636), Ok(4295048016));
    assert_eq!(get_sqrt_price_at_tick(443636), Ok(79226673521066979257578248091));
    assert_eq!(get_sqrt_price_at_tick(443635), Ok(79222712485061176096288712065));
    assert_eq!(get_sqrt_price_at_tick(-443635), Ok(4295262763));
}

#[test]
fn the_square_root_prices_at_some_ticks() {
    assert_eq!(get_sqrt_price_at_tick(1), Ok(18447666387855957090));
    assert_eq!(get_sqrt_price_at_tick(-1), Ok(18445821805675395072));
    assert_eq!(get_sqrt_price_at_tick(2), Ok(18448588748116922877));
    assert_eq!(get_sqrt_price_at_tick(-2), Ok(18444899583751176192));
    assert_eq!(get_sqrt_price_at_tick(10), Ok(18455969290605287889));
    assert_eq!(get_sqrt_price_at_tick(-10), Ok(18437523468038803493));
    assert_eq!(get_sqrt_price_at_tick(1234), Ok(19620693442151342094));
    assert_eq!(get_sqrt_price_at_tick(-1234), Ok(17343034685507407984));
    assert_eq!(get_sqrt_price_at_tick(100000), Ok(2737055259402209284734));
    assert_eq!(get_sqrt_price_at_tick(-100000), Ok(124324258983086206));
    assert_eq!(get_sqrt_price_at_tick(-120), Ok(SQRT_LOWER));
    assert_eq!(get_sqrt_price_at_tick(240), Ok(SQRT_UPPER));
}

#[test]
fn no_square_root_price_beyond_the_tick_range() {
    assert_eq!(get_sqrt_price_at_tick(443637), Err(Error::InvalidTickRange));
    assert_eq!(get_sqrt_price_at_tick(-443637), Err(Error::InvalidTickRange));
    assert_eq!(get_sqrt_price_at_tick(i32::MIN), Err(Error::InvalidTickRange));
    assert_eq!(get_sqrt_price_at_tick(i32::MAX), Err(Error::InvalidTickRange));
}

#[test]
fn the_factors_of_the_price_grid() {
    assert_eq!(factor(0), 0xfffcb933bd6fb800);
    assert_eq!(factor(1), 0xfff97272373d4000);
    assert_eq!(factor(18), 0x2216e584f5fa);
    for i in 1..19 {
        assert!(factor(i) < factor(i - 1));
    }
}

#[test]
fn the_tick_at_the_price_of_a_tick_is_that_tick() {
    for tick in [-443636, -443635, -100000, -1234, -10, -2, -1, 0, 1, 2, 10, 1234, 100000, 443635] {
        let price = get_sqrt_price_at_tick(tick).unwrap();
        assert_eq!(get_tick_at_sqrt_price(price), Ok(tick));
    }
    for tick in (-443636..443636).step_by(7919) {
        let price = get_sqrt_price_at_tick(tick).unwrap();
        assert_eq!(get_tick_at_sqrt_price(price), Ok(tick));
    }
}

#[test]
fn a_price_between_two_ticks_belongs_to_the_lower_tick() {
    for tick in [-443635, -1234, -1, 0, 1, 1234, 443635] {
        let price = get_sqrt_price_at_tick(tick).unwrap();
        assert_eq!(get_tick_at_sqrt_price(price - 1), Ok(tick - 1));
        assert_eq!(get_tick_at_sqrt_price(price + 1), Ok(tick));
    }
    assert_eq!(get_tick_at_sqrt_price(MAX_SQRT_PRICE_X64 - 1), Ok(443635));
}

#[test]
fn going_from_a_price_to_its_tick_and_back_loses_less_than_one_tick() {
    for price in [MIN_SQRT_PRICE_X64, 1u128 << 40, (1u128 << 64) + 12345, 1u128 << 80, MAX_SQRT_PRICE_X64 - 1] {
        let tick = get_tick_at_sqrt_price(price).unwrap();
        assert!(get_sqrt_price_at_tick(tick).unwrap() <= price);
        assert!(price < get_sqrt_price_at_tick(tick + 1).unwrap());
    }
}

#[test]
fn no_tick_at_a_price_beyond_the_price_range() {
    assert_eq!(get_tick_at_sqrt_price(MIN_SQRT_PRICE_X64 - 1), Err(Error::InvalidTickRange));
    assert_eq!(get_tick_at_sqrt_price(MAX_SQRT_PRICE_X64), Err(Error::InvalidTickRange));
    assert_eq!(get_tick_at_sqrt_price(0), Err(Error::InvalidTickRange));
    assert_eq!(get_tick_at_sqrt_price(u128::MAX), Err(Error::InvalidTickRange));
    assert_eq!(get_tick_at_sqrt_price(MIN_SQRT_PRICE_X64), Ok(-443636));
}

#[test]
fn wide_products_are_exact() {
    assert_eq!(mul_wide(0, u128::MAX), Wide { high: 0, low: 0 });
    assert_eq!(mul_wide(3, 5), Wide { high: 0, low: 15 });
    assert_eq!(mul_wide(1 << 64, 1 << 64), Wide { high: 1, low: 0 });
    assert_eq!(mul_wide(u128::MAX, 2), Wide { high: 1, low: u128::MAX - 1 });
    assert_eq!(
        mul_wide(u128::MAX, u128::MAX),
        Wide { high: 340282366920938463463374607431768211454, low: 1 }
    );
    assert_eq!(
        mul_wide(0x1234_5678_9abc_def0_0fed_cba9_8765_4321, 0xffff_ffff_0000_0000_ffff_ffff),
        Wide {
            high: 5634002666369251021710246705,
            low: 340282365568425698368106266499858742495,
        }
    );
}

#[test]
fn wide_quotients_are_exact() {
    assert_eq!(
        div_wide(Wide { high: 1, low: 0 }, 3),
        (Wide { high: 0, low: 113427455640312821154458202477256070485 }, 1)
    );
    assert_eq!(div_wide(Wide { high: 0, low: 17 }, 5), (Wide { high: 0, low: 3 }, 2));
    assert_eq!(
        div_wide(Wide { high: u128::MAX, low: u128::MAX }, 1),
        (Wide { high: u128::MAX, low: u128::MAX }, 0)
    );
    let d = (1u128 << 96) - 1;
    let product = mul_wide(u128::MAX, d);
    assert_eq!(div_wide(product, d), (Wide { high: 0, low: u128::MAX }, 0));
    let (q, r) = div_wide(Wide { high: 5, low: 7 }, 1 << 64);
    assert_eq!((q, r), (Wide { high: 0, low: 5 << 64 }, 7));
}

#[test]
fn products_are_divided_without_loss() {
    assert_eq!(mul_div_floor(10, 10, 3), Some(33));
    assert_eq!(mul_div_ceil(10, 10, 3), Some(34));
    assert_eq!(mul_div_floor(10, 9, 3), Some(30));
    assert_eq!(mul_div_ceil(10, 9, 3), Some(30));
    assert_eq!(mul_div_floor(u128::MAX, 1 << 95, 1 << 95), Some(u128::MAX));
    assert_eq!(mul_div_floor(u128::MAX, 3, 2), None);
    assert_eq!(mul_div_ceil(u128::MAX, 1, 1), Some(u128::MAX));
    assert_eq!(mul_div_ceil(u128::MAX, 3, 3), Some(u128::MAX));
    assert_eq!(mul_div_floor(1, 1, 0), None);
    assert_eq!(mul_div_ceil(1, 1, 0), None);
    assert_eq!(mul_div_floor(1, 1, 1 << 96), None);
    assert_eq!(mul_div_floor(1, 1, (1 << 96) - 1), Some(0));
    assert_eq!(mul_div_ceil(1, 1, (1 << 96) - 1), Some(1));
    assert_eq!(mul_div_floor(0, 5, 7), Some(0));
    assert_eq!(mul_div_ceil(0, 5, 7), Some(0));
}

#[test]
fn liquidity_from_an_amount_of_each_token() {
    assert_eq!(get_liquidity_from_amount_0(SQRT_LOWER, SQRT_UPPER, 1000000), Ok(55724497));
    assert_eq!(get_liquidity_from_amount_0(SQRT_UPPER, SQRT_LOWER, 1000000), Ok(55724497));
    assert_eq!(get_liquidity_from_amount_1(SQRT_LOWER, SQRT_UPPER, 1000000), Ok(55391168));
    assert_eq!(get_liquidity_from_amount_1(SQRT_UPPER, SQRT_LOWER, 1000000), Ok(55391168));
    assert_eq!(
        get_liquidity_from_amount_0(SQRT_LOWER, SQRT_UPPER, u64::MAX),
        Ok(1027935552925380153499)
    );
    assert_eq!(
        get_liquidity_from_amount_1(SQRT_LOWER, SQRT_UPPER, u64::MAX),
        Ok(1021786712013078002113)
    );
    assert_eq!(get_liquidity_from_amount_0(SQRT_LOWER, SQRT_UPPER, 0), Ok(0));
}

#[test]
fn liquidity_needs_a_price_interval() {
    assert_eq!(
        get_liquidity_from_amount_0(SQRT_LOWER, SQRT_LOWER, 5),
        Err(Error::InvalidTickRange)
    );
    assert_eq!(
        get_liquidity_from_amount_1(MIN_SQRT_PRICE_X64 - 1, SQRT_UPPER, 5),
        Err(Error::InvalidTickRange)
    );
    assert_eq!(
        get_delta_amount_0_unsigned(SQRT_LOWER, MAX_SQRT_PRICE_X64 + 1, 5, true),
        Err(Error::InvalidTickRange)
    );
    assert_eq!(
        get_delta_amount_1_unsigned(0, SQRT_UPPER, 5, true),
        Err(Error::InvalidTickRange)
    );
    assert_eq!(
        get_liquidity_from_single_amount_0(1 << 64, SQRT_UPPER, SQRT_UPPER, 5),
        Err(Error::InvalidTickRange)
    );
    assert_eq!(
        get_liquidity_from_single_amount_1(1 << 64, SQRT_UPPER, u128::MAX, 5),
        Err(Error::InvalidTickRange)
    );
}

#[test]
fn amounts_from_a_liquidity() {
    assert_eq!(get_delta_amount_0_unsigned(SQRT_LOWER, SQRT_UPPER, 1, false), Ok(0));
    assert_eq!(get_delta_amount_0_unsigned(SQRT_LOWER, SQRT_UPPER, 1, true), Ok(1));
    assert_eq!(get_delta_amount_1_unsigned(SQRT_LOWER, SQRT_UPPER, 1, false), Ok(0));
    assert_eq!(get_delta_amount_1_unsigned(SQRT_LOWER, SQRT_UPPER, 1, true), Ok(1));
    let l = 1000000000000;
    assert_eq!(get_delta_amount_0_unsigned(SQRT_LOWER, SQRT_UPPER, l, false), Ok(17945428603));
    assert_eq!(get_delta_amount_0_unsigned(SQRT_UPPER, SQRT_LOWER, l, true), Ok(17945428604));
    assert_eq!(get_delta_amount_1_unsigned(SQRT_LOWER, SQRT_UPPER, l, false), Ok(18053419423));
    assert_eq!(get_delta_amount_1_unsigned(SQRT_UPPER, SQRT_LOWER, l, true), Ok(18053419424));
    let l = 1u128 << 64;
    assert_eq!(get_delta_amount_0_unsigned(SQRT_LOWER, SQRT_UPPER, l, false), Ok(331034728736189771));
    assert_eq!(get_delta_amount_0_unsigned(SQRT_LOWER, SQRT_UPPER, l, true), Ok(331034728736189772));
    assert_eq!(get_delta_amount_1_unsigned(SQRT_LOWER, SQRT_UPPER, l, false), Ok(333026807767473823));
    assert_eq!(get_delta_amount_1_unsigned(SQRT_LOWER, SQRT_UPPER, l, true), Ok(333026807767473823));
    assert_eq!(get_delta_amount_0_unsigned(SQRT_LOWER, SQRT_UPPER, 0, true), Ok(0));
}

#[test]
fn amounts_that_do_not_fit_overflow() {
    let l = 1u128 << 90;
    assert_eq!(
        get_delta_amount_0_unsigned(SQRT_LOWER, SQRT_UPPER, l, false),
        Err(Error::AmountOverflow)
    );
    assert_eq!(
        get_delta_amount_1_unsigned(SQRT_LOWER, SQRT_UPPER, l, true),
        Err(Error::AmountOverflow)
    );
    assert_eq!(
        get_delta_amount_0_unsigned(SQRT_LOWER, SQRT_UPPER, u128::MAX, true),
        Err(Error::AmountOverflow)
    );
    assert_eq!(
        get_delta_amount_0_unsigned(MIN_SQRT_PRICE_X64, MAX_SQRT_PRICE_X64, u128::MAX, true),
        Err(Error::AmountOverflow)
    );
    assert_eq!(
        get_delta_amount_0_unsigned(MIN_SQRT_PRICE_X64, MAX_SQRT_PRICE_X64, 1 << 31, true),
        Ok(9223198695232507221)
    );
    assert_eq!(
        get_delta_amount_1_unsigned(MIN_SQRT_PRICE_X64, MAX_SQRT_PRICE_X64, 1 << 32, false),
        Ok(18446397390465014440)
    );
    assert_eq!(
        get_delta_amount_1_unsigned(MIN_SQRT_PRICE_X64, MAX_SQRT_PRICE_X64, 1 << 33, false),
        Err(Error::AmountOverflow)
    );
}

#[test]
fn liquidity_from_one_token_depends_on_the_current_price() {
    let inside = 1u128 << 64;
    let below = get_sqrt_price_at_tick(-500).unwrap();
    let above = get_sqrt_price_at_tick(500).unwrap();
    assert_eq!(get_liquidity_from_single_amount_0(inside, SQRT_LOWER, SQRT_UPPER, 1000000), Ok(83838499));
    assert_eq!(get_liquidity_from_single_amount_1(inside, SQRT_LOWER, SQRT_UPPER, 1000000), Ok(167175499));
    assert_eq!(get_liquidity_from_single_amount_0(below, SQRT_LOWER, SQRT_UPPER, 1000000), Ok(55724497));
    assert_eq!(get_liquidity_from_single_amount_1(below, SQRT_LOWER, SQRT_UPPER, 1000000), Ok(0));
    assert_eq!(get_liquidity_from_single_amount_0(above, SQRT_LOWER, SQRT_UPPER, 1000000), Ok(0));
    assert_eq!(get_liquidity_from_single_amount_1(above, SQRT_LOWER, SQRT_UPPER, 1000000), Ok(55391168));
    assert_eq!(get_liquidity_from_single_amount_0(SQRT_LOWER, SQRT_LOWER, SQRT_UPPER, 1000000), Ok(55724497));
    assert_eq!(get_liquidity_from_single_amount_1(SQRT_UPPER, SQRT_LOWER, SQRT_UPPER, 1000000), Ok(55391168));
    assert_eq!(get_liquidity_from_single_amount_0(SQRT_UPPER, SQRT_LOWER, SQRT_UPPER, 1000000), Ok(0));
    assert_eq!(get_liquidity_from_single_amount_1(SQRT_LOWER, SQRT_LOWER, SQRT_UPPER, 1000000), Ok(0));
}

#[test]
fn a_change_of_liquidity_moves_both_tokens_within_the_range() {
    let current = 1u128 << 64;
    assert_eq!(get_delta_amounts_signed(0, current, -120, 240, 5000), Ok((60, 30)));
    assert_eq!(get_delta_amounts_signed(0, current, -120, 240, -5000), Ok((59, 29)));
    assert_eq!(get_delta_amounts_signed(0, current, -120, 240, 0), Ok((0, 0)));
    assert_eq!(magnitude_of(-5000), 5000);
    assert_eq!(magnitude_of(5000), 5000);
    assert_eq!(magnitude_of(i128::MIN), 1 << 127);
    assert_eq!(magnitude_of(i128::MAX), (1 << 127) - 1);
}

#[test]
fn a_change_of_liquidity_outside_the_range_moves_one_token() {
    let below = get_sqrt_price_at_tick(-500).unwrap();
    let above = get_sqrt_price_at_tick(500).unwrap();
    assert_eq!(
        get_delta_amounts_signed(-500, below, -120, 240, 1000000000000),
        Ok((17945428604, 0))
    );
    assert_eq!(
        get_delta_amounts_signed(500, above, -120, 240, 1000000000000),
        Ok((0, 18053419424))
    );
    assert_eq!(
        get_delta_amounts_signed(240, SQRT_UPPER, -120, 240, -1000000000000),
        Ok((0, 18053419423))
    );
    assert_eq!(
        get_delta_amounts_signed(-121, below, -120, 240, -1000000000000),
        Ok((17945428603, 0))
    );
}

#[test]
fn a_change_of_liquidity_needs_ticks_of_the_price_range() {
    let current = 1u128 << 64;
    assert_eq!(
        get_delta_amounts_signed(0, current, -443637, 240, 5),
        Err(Error::InvalidTickRange)
    );
    assert_eq!(
        get_delta_amounts_signed(0, current, -120, 443637, 5),
        Err(Error::InvalidTickRange)
    );
    assert_eq!(
        get_delta_amounts_signed(500, current, 240, 240, 5),
        Err(Error::InvalidTickRange)
    );
    assert_eq!(
        get_delta_amounts_signed(0, current, -120, 240, i128::MIN),
        Err(Error::AmountOverflow)
    );
}

#[test]
fn a_deposit_is_planned_from_the_amount_of_one_token() {
    let current = 1u128 << 64;
    assert_eq!(
        plan_deposit(0, current, 10, -120, 240, 1000000, true),
        Ok(Deposit { liquidity: 83838499, amount_0: 1000000, amount_1: 501500 })
    );
    assert_eq!(
        plan_deposit(0, current, 10, -120, 240, 1000000, false),
        Ok(Deposit { liquidity: 167175499, amount_0: 1994019, amount_1: 1000000 })
    );
    let below = get_sqrt_price_at_tick(-500).unwrap();
    assert_eq!(
        plan_deposit(-500, below, 10, -120, 240, 1000000, true),
        Ok(Deposit { liquidity: 55724497, amount_0: 1000000, amount_1: 0 })
    );
    assert_eq!(
        plan_deposit(-500, below, 10, -120, 240, 1000000, false),
        Ok(Deposit { liquidity: 0, amount_0: 0, amount_1: 0 })
    );
    let above = get_sqrt_price_at_tick(500).unwrap();
    assert_eq!(
        plan_deposit(500, above, 10, -120, 240, 1000000, false),
        Ok(Deposit { liquidity: 55391168, amount_0: 0, amount_1: 1000000 })
    );
}

#[test]
fn a_deposit_into_an_invalid_range_is_refused() {
    let current = 1u128 << 64;
    assert_eq!(
        plan_deposit(0, current, 10, 240, -120, 1000000, true),
        Err(Error::InvalidTickRange)
    );
    assert_eq!(
        plan_deposit(0, current, 10, -125, 240, 1000000, true),
        Err(Error::InvalidTickRange)
    );
    assert_eq!(
        plan_deposit(0, current, 0, -120, 240, 1000000, true),
        Err(Error::InvalidTickRange)
    );
    assert_eq!(plan_deposit(0, current, 10, 240, -120, 0, true), Err(Error::InvalidTickRange));
    assert_eq!(plan_deposit(0, current, 10, -120, 240, 0, true), Err(Error::ZeroAmount));
    assert_eq!(Error::AmountOverflow.message(), "amount overflow");
}
