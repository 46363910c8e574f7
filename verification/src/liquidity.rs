use crate::error::Error;
use crate::tick::{
    check_tick_range, tick_in_bounds, tick_range_valid, MAX_SQRT_PRICE_X64, MIN_SQRT_PRICE_X64,
};
use crate::tick_math::{get_sqrt_price_at_tick, sqrt_price_at_tick};
use crate::wide::{div_wide, lemma_ceil_split, mul_div_ceil, mul_div_floor, mul_wide, Wide};
use vstd::arithmetic::div_mod::{lemma_div_is_ordered, lemma_div_multiples_vanish};
use vstd::prelude::*;

verus! {

/// One, as a fixed-point number with 64 fractional bits.
pub const Q64: u128 = 0x1_0000_0000_0000_0000;

/// Whether two square-root prices bound a price interval: both lie within
/// the price range and they differ.
pub open spec fn prices_valid(sqrt_a: u128, sqrt_b: u128) -> bool {
    &&& MIN_SQRT_PRICE_X64 <= sqrt_a <= MAX_SQRT_PRICE_X64
    &&& MIN_SQRT_PRICE_X64 <= sqrt_b <= MAX_SQRT_PRICE_X64
    &&& sqrt_a != sqrt_b
}

/// The lower of two square-root prices.
pub open spec fn lower(sqrt_a: u128, sqrt_b: u128) -> nat {
    if sqrt_a <= sqrt_b {
        sqrt_a as nat
    } else {
        sqrt_b as nat
    }
}

/// The upper of two square-root prices.
pub open spec fn upper(sqrt_a: u128, sqrt_b: u128) -> nat {
    if sqrt_a <= sqrt_b {
        sqrt_b as nat
    } else {
        sqrt_a as nat
    }
}

/// A quotient rounded up.
pub open spec fn ceil_div(n: nat, d: nat) -> nat {
    (n + d - 1) as nat / d
}

/// The liquidity that an amount of token 0 provides over a price interval:
/// `amount * (lower * upper) / (upper - lower)`, in fixed-point arithmetic,
/// each quotient rounded down.
pub open spec fn liquidity_from_amount_0(sqrt_a: u128, sqrt_b: u128, amount_0: u64) -> nat {
    (amount_0 as nat) * (lower(sqrt_a, sqrt_b) * upper(sqrt_a, sqrt_b) / (Q64 as nat)) / ((upper(
        sqrt_a,
        sqrt_b,
    ) - lower(sqrt_a, sqrt_b)) as nat)
}

/// The liquidity that an amount of token 1 provides over a price interval:
/// `amount / (upper - lower)`, in fixed-point arithmetic, rounded down.
pub open spec fn liquidity_from_amount_1(sqrt_a: u128, sqrt_b: u128, amount_1: u64) -> nat {
    (amount_1 as nat) * (Q64 as nat) / ((upper(sqrt_a, sqrt_b) - lower(sqrt_a, sqrt_b)) as nat)
}

/// The amount of token 0 that a liquidity stands for over a price interval:
/// `liquidity * (upper - lower) / (upper * lower)`, in fixed-point
/// arithmetic, each quotient rounded the same way.
pub open spec fn delta_amount_0(sqrt_a: u128, sqrt_b: u128, liquidity: u128, round_up: bool) -> nat {
    let numerator = (liquidity as nat) * ((upper(sqrt_a, sqrt_b) - lower(sqrt_a, sqrt_b)) as nat)
        * (Q64 as nat);
    if round_up {
        ceil_div(ceil_div(numerator, upper(sqrt_a, sqrt_b)), lower(sqrt_a, sqrt_b))
    } else {
        numerator / upper(sqrt_a, sqrt_b) / lower(sqrt_a, sqrt_b)
    }
}

/// The amount of token 1 that a liquidity stands for over a price interval:
/// `liquidity * (upper - lower)`, in fixed-point arithmetic, rounded as asked.
pub open spec fn delta_amount_1(sqrt_a: u128, sqrt_b: u128, liquidity: u128, round_up: bool) -> nat {
    let numerator = (liquidity as nat) * ((upper(sqrt_a, sqrt_b) - lower(sqrt_a, sqrt_b)) as nat);
    if round_up {
        ceil_div(numerator, Q64 as nat)
    } else {
        numerator / (Q64 as nat)
    }
}

/// What a computation of an amount gives: the amount where the prices are
/// valid and it fits the limit, else the reason.
pub open spec fn amount_outcome(valid: bool, amount: nat, limit: nat) -> Result<nat, Error> {
    if !valid {
        Err(Error::InvalidTickRange)
    } else if amount > limit {
        Err(Error::AmountOverflow)
    } else {
        Ok(amount)
    }
}

/// The outcome of a computation of a 128-bit amount, as a number.
pub open spec fn outcome_128(outcome: Result<u128, Error>) -> Result<nat, Error> {
    match outcome {
        Ok(v) => Ok(v as nat),
        Err(e) => Err(e),
    }
}

/// The outcome of a computation of a 64-bit amount, as a number.
pub open spec fn outcome_64(outcome: Result<u64, Error>) -> Result<nat, Error> {
    match outcome {
        Ok(v) => Ok(v as nat),
        Err(e) => Err(e),
    }
}

/// Two square-root prices in rising order, if they bound a price interval.
fn ordered_prices(sqrt_a: u128, sqrt_b: u128) -> (prices: Option<(u128, u128)>)
    ensures
        prices is Some <==> prices_valid(sqrt_a, sqrt_b),
        prices matches Some((lo, hi)) ==> {
            &&& lo == lower(sqrt_a, sqrt_b)
            &&& hi == upper(sqrt_a, sqrt_b)
            &&& MIN_SQRT_PRICE_X64 <= lo < hi <= MAX_SQRT_PRICE_X64
        },
{
    if sqrt_a < MIN_SQRT_PRICE_X64 || sqrt_a > MAX_SQRT_PRICE_X64 || sqrt_b < MIN_SQRT_PRICE_X64
        || sqrt_b > MAX_SQRT_PRICE_X64 || sqrt_a == sqrt_b {
        return None;
    }
    if sqrt_a < sqrt_b {
        Some((sqrt_a, sqrt_b))
    } else {
        Some((sqrt_b, sqrt_a))
    }
}

/// The liquidity that an amount of token 0 provides over a price interval.
pub fn get_liquidity_from_amount_0(sqrt_a: u128, sqrt_b: u128, amount_0: u64) -> (liquidity: Result<
    u128,
    Error,
>)
    ensures
        outcome_128(liquidity) == amount_outcome(
            prices_valid(sqrt_a, sqrt_b),
            liquidity_from_amount_0(sqrt_a, sqrt_b, amount_0),
            u128::MAX as nat,
        ),
{
    let (lo, hi) = match ordered_prices(sqrt_a, sqrt_b) {
        Some(prices) => prices,
        None => {
            return Err(Error::InvalidTickRange);
        },
    };
    proof {
        assert((lo as nat) * (hi as nat) <= 0xffff_ffff_ffff_ffff_ffff_ffff
            * 0xffff_ffff_ffff_ffff_ffff_ffff) by (nonlinear_arith)
            requires
                lo <= 0xffff_ffff_ffff_ffff_ffff_ffff,
                hi <= 0xffff_ffff_ffff_ffff_ffff_ffff,
        ;
    }
    let intermediate = match mul_div_floor(lo, hi, Q64) {
        Some(v) => v,
        None => {
            return Err(Error::AmountOverflow);
        },
    };
    match mul_div_floor(amount_0 as u128, intermediate, hi - lo) {
        Some(v) => Ok(v),
        None => Err(Error::AmountOverflow),
    }
}

/// The liquidity that an amount of token 1 provides over a price interval.
pub fn get_liquidity_from_amount_1(sqrt_a: u128, sqrt_b: u128, amount_1: u64) -> (liquidity: Result<
    u128,
    Error,
>)
    ensures
        outcome_128(liquidity) == amount_outcome(
            prices_valid(sqrt_a, sqrt_b),
            liquidity_from_amount_1(sqrt_a, sqrt_b, amount_1),
            u128::MAX as nat,
        ),
{
    let (lo, hi) = match ordered_prices(sqrt_a, sqrt_b) {
        Some(prices) => prices,
        None => {
            return Err(Error::InvalidTickRange);
        },
    };
    match mul_div_floor(amount_1 as u128, Q64, hi - lo) {
        Some(v) => Ok(v),
        None => Err(Error::AmountOverflow),
    }
}

/// The amount of token 1 that a liquidity stands for over a price interval.
pub fn get_delta_amount_1_unsigned(sqrt_a: u128, sqrt_b: u128, liquidity: u128, round_up: bool) -> (amount:
    Result<u64, Error>)
    ensures
        outcome_64(amount) == amount_outcome(
            prices_valid(sqrt_a, sqrt_b),
            delta_amount_1(sqrt_a, sqrt_b, liquidity, round_up),
            u64::MAX as nat,
        ),
{
    let (lo, hi) = match ordered_prices(sqrt_a, sqrt_b) {
        Some(prices) => prices,
        None => {
            return Err(Error::InvalidTickRange);
        },
    };
    let whole = if round_up {
        mul_div_ceil(liquidity, hi - lo, Q64)
    } else {
        mul_div_floor(liquidity, hi - lo, Q64)
    };
    match whole {
        Some(amount) => if amount > 0xffff_ffff_ffff_ffff {
            Err(Error::AmountOverflow)
        } else {
            Ok(amount as u64)
        },
        None => Err(Error::AmountOverflow),
    }
}

/// A wide number times two to the power of 64, where that fits.
fn shifted_64(n: Wide) -> (shifted: Option<Wide>)
    ensures
        shifted is Some <==> n.high < 0x1_0000_0000_0000_0000,
        shifted matches Some(s) ==> s.value() == n.value() * 0x1_0000_0000_0000_0000,
{
    if n.high >= 0x1_0000_0000_0000_0000 {
        return None;
    }
    let high: u128 = n.high * 0x1_0000_0000_0000_0000 + n.low / 0x1_0000_0000_0000_0000;
    let low: u128 = (n.low % 0x1_0000_0000_0000_0000) * 0x1_0000_0000_0000_0000;
    Some(Wide { high, low })
}

/// A wide number plus one, where that fits.
fn incremented(n: Wide) -> (next: Option<Wide>)
    ensures
        next is Some <==> n.value() + 1 < 0x1_0000_0000_0000_0000_0000_0000_0000_0000nat
            * 0x1_0000_0000_0000_0000_0000_0000_0000_0000nat,
        next matches Some(s) ==> s.value() == n.value() + 1,
{
    if n.low == u128::MAX {
        if n.high == u128::MAX {
            return None;
        }
        Some(Wide { high: n.high + 1, low: 0 })
    } else {
        Some(Wide { high: n.high, low: n.low + 1 })
    }
}

/// A numerator of two to the power of 256 or more gives an amount that does
/// not fit in 64 bits, whatever the prices of the price range.
proof fn lemma_large_numerator(numerator: nat, hi: nat, lo: nat)
    requires
        numerator >= 0x1_0000_0000_0000_0000_0000_0000_0000_0000nat
            * 0x1_0000_0000_0000_0000_0000_0000_0000_0000nat,
        0 < lo < 0x1_0000_0000_0000_0000_0000_0000,
        0 < hi < 0x1_0000_0000_0000_0000_0000_0000,
    ensures
        numerator / hi / lo > 0xffff_ffff_ffff_ffff,
{
    let big: nat = 0x1_0000_0000_0000_0000_0000_0000_0000_0000_0000_0000nat;
    let q: nat = 0x1_0000_0000_0000_0000;
    assert(big * hi <= numerator) by (nonlinear_arith)
        requires
            numerator >= 0x1_0000_0000_0000_0000_0000_0000_0000_0000nat
                * 0x1_0000_0000_0000_0000_0000_0000_0000_0000nat,
            hi < 0x1_0000_0000_0000_0000_0000_0000,
            big == 0x1_0000_0000_0000_0000_0000_0000_0000_0000_0000_0000nat,
    ;
    lemma_div_is_ordered((big * hi) as int, numerator as int, hi as int);
    lemma_div_multiples_vanish(big as int, hi as int);
    assert(big * hi == hi * big) by (nonlinear_arith);
    let first = numerator / hi;
    assert(first >= big);
    assert(q * lo <= first) by (nonlinear_arith)
        requires
            first >= big,
            lo < 0x1_0000_0000_0000_0000_0000_0000,
            big == 0x1_0000_0000_0000_0000_0000_0000_0000_0000_0000_0000nat,
            q == 0x1_0000_0000_0000_0000,
    ;
    lemma_div_is_ordered((q * lo) as int, first as int, lo as int);
    lemma_div_multiples_vanish(q as int, lo as int);
    assert(q * lo == lo * q) by (nonlinear_arith);
}

/// Rounding up never gives less than rounding down.
proof fn lemma_ceil_at_least(numerator: nat, hi: nat, lo: nat)
    requires
        hi > 0,
        lo > 0,
    ensures
        ceil_div(ceil_div(numerator, hi), lo) >= numerator / hi / lo,
{
    lemma_ceil_split(numerator, hi);
    lemma_ceil_split(ceil_div(numerator, hi), lo);
    lemma_div_is_ordered((numerator / hi) as int, ceil_div(numerator, hi) as int, lo as int);
}

/// The amount of token 0 that a liquidity stands for over a price interval.
pub fn get_delta_amount_0_unsigned(sqrt_a: u128, sqrt_b: u128, liquidity: u128, round_up: bool) -> (amount:
    Result<u64, Error>)
    ensures
        outcome_64(amount) == amount_outcome(
            prices_valid(sqrt_a, sqrt_b),
            delta_amount_0(sqrt_a, sqrt_b, liquidity, round_up),
            u64::MAX as nat,
        ),
{
    let (lo, hi) = match ordered_prices(sqrt_a, sqrt_b) {
        Some(prices) => prices,
        None => {
            return Err(Error::InvalidTickRange);
        },
    };
    let ghost numerator = (liquidity as nat) * ((hi - lo) as nat) * (Q64 as nat);
    proof {
        lemma_ceil_at_least(numerator, hi as nat, lo as nat);
        lemma_ceil_split(numerator, hi as nat);
        lemma_ceil_split(ceil_div(numerator, hi as nat), lo as nat);
    }
    let scaled = match shifted_64(mul_wide(liquidity, hi - lo)) {
        Some(s) => s,
        None => {
            proof {
                let product = (liquidity as nat) * ((hi - lo) as nat);
                assert(product * 0x1_0000_0000_0000_0000
                    >= 0x1_0000_0000_0000_0000_0000_0000_0000_0000nat
                    * 0x1_0000_0000_0000_0000_0000_0000_0000_0000nat);
                lemma_large_numerator(numerator, hi as nat, lo as nat);
            }
            return Err(Error::AmountOverflow);
        },
    };
    let (first, first_rem) = div_wide(scaled, hi);
    let first = if round_up && first_rem != 0 {
        match incremented(first) {
            Some(next) => next,
            None => {
                proof {
                    lemma_large_numerator(first.value(), 1, lo as nat);
                }
                return Err(Error::AmountOverflow);
            },
        }
    } else {
        first
    };
    let (second, second_rem) = div_wide(first, lo);
    if second.high != 0 || second.low > 0xffff_ffff_ffff_ffff {
        return Err(Error::AmountOverflow);
    }
    if round_up && second_rem != 0 {
        if second.low == 0xffff_ffff_ffff_ffff {
            return Err(Error::AmountOverflow);
        }
        Ok((second.low + 1) as u64)
    } else {
        Ok(second.low as u64)
    }
}

/// The liquidity that an amount of token 0 alone provides to a position over
/// a price interval, at the pool's current price: only the part of the
/// interval above the current price takes token 0.
pub open spec fn liquidity_from_single_amount_0(
    sqrt_current: u128,
    sqrt_a: u128,
    sqrt_b: u128,
    amount_0: u64,
) -> Result<nat, Error> {
    if !prices_valid(sqrt_a, sqrt_b) {
        Err(Error::InvalidTickRange)
    } else if sqrt_current <= lower(sqrt_a, sqrt_b) {
        amount_outcome(true, liquidity_from_amount_0(sqrt_a, sqrt_b, amount_0), u128::MAX as nat)
    } else if sqrt_current < upper(sqrt_a, sqrt_b) {
        amount_outcome(
            true,
            liquidity_from_amount_0(sqrt_current, upper(sqrt_a, sqrt_b) as u128, amount_0),
            u128::MAX as nat,
        )
    } else {
        Ok(0)
    }
}

/// The liquidity that an amount of token 1 alone provides to a position over
/// a price interval, at the pool's current price: only the part of the
/// interval below the current price takes token 1.
pub open spec fn liquidity_from_single_amount_1(
    sqrt_current: u128,
    sqrt_a: u128,
    sqrt_b: u128,
    amount_1: u64,
) -> Result<nat, Error> {
    if !prices_valid(sqrt_a, sqrt_b) {
        Err(Error::InvalidTickRange)
    } else if sqrt_current <= lower(sqrt_a, sqrt_b) {
        Ok(0)
    } else if sqrt_current < upper(sqrt_a, sqrt_b) {
        amount_outcome(
            true,
            liquidity_from_amount_1(lower(sqrt_a, sqrt_b) as u128, sqrt_current, amount_1),
            u128::MAX as nat,
        )
    } else {
        amount_outcome(true, liquidity_from_amount_1(sqrt_a, sqrt_b, amount_1), u128::MAX as nat)
    }
}

/// The liquidity that an amount of token 0 alone provides to a position.
pub fn get_liquidity_from_single_amount_0(
    sqrt_current: u128,
    sqrt_a: u128,
    sqrt_b: u128,
    amount_0: u64,
) -> (liquidity: Result<u128, Error>)
    ensures
        outcome_128(liquidity) == liquidity_from_single_amount_0(
            sqrt_current,
            sqrt_a,
            sqrt_b,
            amount_0,
        ),
{
    let (lo, hi) = match ordered_prices(sqrt_a, sqrt_b) {
        Some(prices) => prices,
        None => {
            return Err(Error::InvalidTickRange);
        },
    };
    if sqrt_current <= lo {
        get_liquidity_from_amount_0(lo, hi, amount_0)
    } else if sqrt_current < hi {
        get_liquidity_from_amount_0(sqrt_current, hi, amount_0)
    } else {
        Ok(0)
    }
}

/// The liquidity that an amount of token 1 alone provides to a position.
pub fn get_liquidity_from_single_amount_1(
    sqrt_current: u128,
    sqrt_a: u128,
    sqrt_b: u128,
    amount_1: u64,
) -> (liquidity: Result<u128, Error>)
    ensures
        outcome_128(liquidity) == liquidity_from_single_amount_1(
            sqrt_current,
            sqrt_a,
            sqrt_b,
            amount_1,
        ),
{
    let (lo, hi) = match ordered_prices(sqrt_a, sqrt_b) {
        Some(prices) => prices,
        None => {
            return Err(Error::InvalidTickRange);
        },
    };
    if sqrt_current <= lo {
        Ok(0)
    } else if sqrt_current < hi {
        get_liquidity_from_amount_1(lo, sqrt_current, amount_1)
    } else {
        get_liquidity_from_amount_1(lo, hi, amount_1)
    }
}

/// The magnitude of a change of liquidity.
pub open spec fn magnitude(liquidity_delta: i128) -> u128 {
    if liquidity_delta < 0 {
        (-liquidity_delta) as u128
    } else {
        liquidity_delta as u128
    }
}

/// The magnitude of a change of liquidity.
pub fn magnitude_of(liquidity_delta: i128) -> (m: u128)
    ensures
        m == magnitude(liquidity_delta),
{
    if liquidity_delta < 0 {
        if liquidity_delta == i128::MIN {
            0x8000_0000_0000_0000_0000_0000_0000_0000
        } else {
            (-liquidity_delta) as u128
        }
    } else {
        liquidity_delta as u128
    }
}

/// The amount of token 0 that a change of liquidity moves over a price
/// interval: rounded up where liquidity is added, down where it is taken out.
pub open spec fn moved_0(sqrt_a: u128, sqrt_b: u128, liquidity_delta: i128) -> Result<nat, Error> {
    amount_outcome(
        prices_valid(sqrt_a, sqrt_b),
        delta_amount_0(sqrt_a, sqrt_b, magnitude(liquidity_delta), liquidity_delta >= 0),
        u64::MAX as nat,
    )
}

/// The amount of token 1 that a change of liquidity moves over a price interval.
pub open spec fn moved_1(sqrt_a: u128, sqrt_b: u128, liquidity_delta: i128) -> Result<nat, Error> {
    amount_outcome(
        prices_valid(sqrt_a, sqrt_b),
        delta_amount_1(sqrt_a, sqrt_b, magnitude(liquidity_delta), liquidity_delta >= 0),
        u64::MAX as nat,
    )
}

/// The amounts of the two tokens that a change of a position's liquidity
/// moves, at the pool's current tick and price: below the position's range
/// all of it is token 0, above it all is token 1, and within it the current
/// price divides the two.
pub open spec fn delta_amounts(
    tick_current: i32,
    sqrt_current: u128,
    tick_lower: i32,
    tick_upper: i32,
    liquidity_delta: i128,
) -> Result<(nat, nat), Error> {
    if !tick_in_bounds(tick_lower as int) || !tick_in_bounds(tick_upper as int) {
        Err(Error::InvalidTickRange)
    } else {
        let sqrt_lower = sqrt_price_at_tick(tick_lower as int) as u128;
        let sqrt_upper = sqrt_price_at_tick(tick_upper as int) as u128;
        if tick_current < tick_lower {
            match moved_0(sqrt_lower, sqrt_upper, liquidity_delta) {
                Err(e) => Err(e),
                Ok(amount_0) => Ok((amount_0, 0)),
            }
        } else if tick_current < tick_upper {
            match moved_0(sqrt_current, sqrt_upper, liquidity_delta) {
                Err(e) => Err(e),
                Ok(amount_0) => match moved_1(sqrt_lower, sqrt_current, liquidity_delta) {
                    Err(e) => Err(e),
                    Ok(amount_1) => Ok((amount_0, amount_1)),
                },
            }
        } else {
            match moved_1(sqrt_lower, sqrt_upper, liquidity_delta) {
                Err(e) => Err(e),
                Ok(amount_1) => Ok((0, amount_1)),
            }
        }
    }
}

/// The amounts of the two tokens that a change of a position's liquidity moves.
pub fn get_delta_amounts_signed(
    tick_current: i32,
    sqrt_current: u128,
    tick_lower: i32,
    tick_upper: i32,
    liquidity_delta: i128,
) -> (amounts: Result<(u64, u64), Error>)
    ensures
        match amounts {
            Ok((amount_0, amount_1)) => Ok::<(nat, nat), Error>((amount_0 as nat, amount_1 as nat)),
            Err(e) => Err::<(nat, nat), Error>(e),
        } == delta_amounts(tick_current, sqrt_current, tick_lower, tick_upper, liquidity_delta),
{
    let sqrt_lower = match get_sqrt_price_at_tick(tick_lower) {
        Ok(p) => p,
        Err(e) => {
            return Err(e);
        },
    };
    let sqrt_upper = match get_sqrt_price_at_tick(tick_upper) {
        Ok(p) => p,
        Err(e) => {
            return Err(e);
        },
    };
    let liquidity = magnitude_of(liquidity_delta);
    let round_up = liquidity_delta >= 0;
    if tick_current < tick_lower {
        match get_delta_amount_0_unsigned(sqrt_lower, sqrt_upper, liquidity, round_up) {
            Ok(amount_0) => Ok((amount_0, 0)),
            Err(e) => Err(e),
        }
    } else if tick_current < tick_upper {
        let amount_0 = match get_delta_amount_0_unsigned(
            sqrt_current,
            sqrt_upper,
            liquidity,
            round_up,
        ) {
            Ok(amount) => amount,
            Err(e) => {
                return Err(e);
            },
        };
        match get_delta_amount_1_unsigned(sqrt_lower, sqrt_current, liquidity, round_up) {
            Ok(amount_1) => Ok((amount_0, amount_1)),
            Err(e) => Err(e),
        }
    } else {
        match get_delta_amount_1_unsigned(sqrt_lower, sqrt_upper, liquidity, round_up) {
            Ok(amount_1) => Ok((0, amount_1)),
            Err(e) => Err(e),
        }
    }
}

/// What a deposit into a position comes to: its liquidity and the amounts of
/// the two tokens that the liquidity takes.
#[derive(Clone, Copy, Debug, PartialEq, Eq)]
pub struct Deposit {
    pub liquidity: u128,
    pub amount_0: u64,
    pub amount_1: u64,
}

/// What the deposit of an amount of one token into a tick range comes to. The
/// caller fixes the amount of token 0 where `is_base_0` holds, of token 1
/// otherwise; the liquidity follows from it, and the amounts of both tokens
/// from the liquidity, rounded up. An invalid tick range is refused first,
/// then a deposit of nothing.
pub open spec fn deposit_plan(
    tick_current: i32,
    sqrt_current: u128,
    tick_spacing: u16,
    tick_lower: i32,
    tick_upper: i32,
    input_amount: u64,
    is_base_0: bool,
) -> Result<(nat, nat, nat), Error> {
    if !tick_range_valid(tick_lower as int, tick_upper as int, tick_spacing) {
        Err(Error::InvalidTickRange)
    } else if input_amount == 0 {
        Err(Error::ZeroAmount)
    } else {
        let sqrt_lower = sqrt_price_at_tick(tick_lower as int) as u128;
        let sqrt_upper = sqrt_price_at_tick(tick_upper as int) as u128;
        let provided = if is_base_0 {
            liquidity_from_single_amount_0(sqrt_current, sqrt_lower, sqrt_upper, input_amount)
        } else {
            liquidity_from_single_amount_1(sqrt_current, sqrt_lower, sqrt_upper, input_amount)
        };
        match provided {
            Err(e) => Err(e),
            Ok(liquidity) => if liquidity > i128::MAX {
                Err(Error::AmountOverflow)
            } else {
                match delta_amounts(
                    tick_current,
                    sqrt_current,
                    tick_lower,
                    tick_upper,
                    liquidity as i128,
                ) {
                    Err(e) => Err(e),
                    Ok((amount_0, amount_1)) => Ok((liquidity, amount_0, amount_1)),
                }
            },
        }
    }
}

/// Plans the deposit of an amount of one token into a tick range of a pool.
pub fn plan_deposit(
    tick_current: i32,
    sqrt_current: u128,
    tick_spacing: u16,
    tick_lower: i32,
    tick_upper: i32,
    input_amount: u64,
    is_base_0: bool,
) -> (deposit: Result<Deposit, Error>)
    ensures
        match deposit {
            Ok(d) => Ok::<(nat, nat, nat), Error>(
                (d.liquidity as nat, d.amount_0 as nat, d.amount_1 as nat),
            ),
            Err(e) => Err::<(nat, nat, nat), Error>(e),
        } == deposit_plan(
            tick_current,
            sqrt_current,
            tick_spacing,
            tick_lower,
            tick_upper,
            input_amount,
            is_base_0,
        ),
{
    match check_tick_range(tick_lower, tick_upper, tick_spacing) {
        Err(e) => {
            return Err(e);
        },
        Ok(_) => {},
    }
    if input_amount == 0 {
        return Err(Error::ZeroAmount);
    }
    let sqrt_lower = match get_sqrt_price_at_tick(tick_lower) {
        Ok(p) => p,
        Err(e) => {
            return Err(e);
        },
    };
    let sqrt_upper = match get_sqrt_price_at_tick(tick_upper) {
        Ok(p) => p,
        Err(e) => {
            return Err(e);
        },
    };
    let provided = if is_base_0 {
        get_liquidity_from_single_amount_0(sqrt_current, sqrt_lower, sqrt_upper, input_amount)
    } else {
        get_liquidity_from_single_amount_1(sqrt_current, sqrt_lower, sqrt_upper, input_amount)
    };
    let liquidity = match provided {
        Ok(liquidity) => liquidity,
        Err(e) => {
            return Err(e);
        },
    };
    if liquidity > 0x7fff_ffff_ffff_ffff_ffff_ffff_ffff_ffff {
        return Err(Error::AmountOverflow);
    }
    match get_delta_amounts_signed(
        tick_current,
        sqrt_current,
        tick_lower,
        tick_upper,
        liquidity as i128,
    ) {
        Ok((amount_0, amount_1)) => Ok(Deposit { liquidity, amount_0, amount_1 }),
        Err(e) => Err(e),
    }
}

} // verus!
