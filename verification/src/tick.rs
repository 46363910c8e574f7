use crate::bitmap::{floor_div, ticks_per_array, MAX_TICK, MIN_TICK, TICK_ARRAY_SIZE};
use crate::error::Error;
use vstd::arithmetic::div_mod::{lemma_fundamental_div_mod, lemma_mod_bound};
use vstd::prelude::*;

verus! {

/// The lowest square-root price of the protocol's price range, as a fixed-point
/// number with 64 fractional bits.
pub const MIN_SQRT_PRICE_X64: u128 = 4295048016;

/// The highest square-root price of the protocol's price range.
pub const MAX_SQRT_PRICE_X64: u128 = 79226673521066979257578248091;

/// Whether a tick lies within the price range.
pub open spec fn tick_in_bounds(tick: int) -> bool {
    MIN_TICK <= tick <= MAX_TICK
}

/// Whether a tick range can hold a position in a pool with the given tick
/// spacing: both ticks lie within the price range and on the spacing's grid,
/// and the lower one is below the upper one.
pub open spec fn tick_range_valid(tick_lower: int, tick_upper: int, tick_spacing: u16) -> bool {
    &&& tick_spacing > 0
    &&& tick_in_bounds(tick_lower)
    &&& tick_in_bounds(tick_upper)
    &&& tick_lower < tick_upper
    &&& tick_lower % (tick_spacing as int) == 0
    &&& tick_upper % (tick_spacing as int) == 0
}

/// Whether a tick lies on the grid of a tick spacing.
fn on_grid(tick: i32, tick_spacing: u16) -> (aligned: bool)
    requires
        tick_spacing > 0,
        tick_in_bounds(tick as int),
    ensures
        aligned == (tick as int % (tick_spacing as int) == 0),
{
    let s: i32 = tick_spacing as i32;
    let q: i32 = floor_div(tick, s);
    proof {
        lemma_fundamental_div_mod(tick as int, s as int);
        lemma_mod_bound(tick as int, s as int);
        assert(-443636 - 65535 <= q * s <= 443636) by (nonlinear_arith)
            requires
                tick as int == s * q + (tick as int % (s as int)),
                0 <= tick as int % (s as int) < s,
                -443636 <= tick <= 443636,
                0 < s <= 65535,
        ;
    }
    q * s == tick
}

/// Checks a tick range against a pool's tick spacing.
pub fn check_tick_range(tick_lower: i32, tick_upper: i32, tick_spacing: u16) -> (outcome: Result<
    (),
    Error,
>)
    ensures
        outcome is Ok <==> tick_range_valid(tick_lower as int, tick_upper as int, tick_spacing),
        outcome matches Err(e) ==> e == Error::InvalidTickRange,
{
    if tick_spacing == 0 || tick_lower < MIN_TICK || tick_lower > MAX_TICK || tick_upper < MIN_TICK
        || tick_upper > MAX_TICK || tick_lower >= tick_upper {
        return Err(Error::InvalidTickRange);
    }
    if !on_grid(tick_lower, tick_spacing) || !on_grid(tick_upper, tick_spacing) {
        return Err(Error::InvalidTickRange);
    }
    Ok(())
}

/// A tick rounded down to the grid of a tick spacing.
pub open spec fn grid_floor(tick: int, tick_spacing: u16) -> int {
    (tick / (tick_spacing as int)) * (tick_spacing as int)
}

/// Rounds a tick of the price range down to the grid of a tick spacing.
pub fn tick_with_spacing(tick: i32, tick_spacing: u16) -> (rounded: Result<i32, Error>)
    ensures
        rounded is Ok <==> tick_spacing > 0 && tick_in_bounds(tick as int),
        rounded matches Ok(r) ==> r == grid_floor(tick as int, tick_spacing),
        rounded matches Err(e) ==> e == Error::InvalidTickRange,
{
    if tick_spacing == 0 || tick < MIN_TICK || tick > MAX_TICK {
        return Err(Error::InvalidTickRange);
    }
    let s: i32 = tick_spacing as i32;
    let q: i32 = floor_div(tick, s);
    proof {
        lemma_fundamental_div_mod(tick as int, s as int);
        lemma_mod_bound(tick as int, s as int);
        assert(-443636 - 65535 <= q * s <= 443636) by (nonlinear_arith)
            requires
                tick as int == s * q + (tick as int % (s as int)),
                0 <= tick as int % (s as int) < s,
                -443636 <= tick <= 443636,
                0 < s <= 65535,
        ;
    }
    Ok(q * s)
}

/// The start tick of the tick array that holds a tick.
pub open spec fn array_start(tick: int, tick_spacing: u16) -> int {
    (tick / ticks_per_array(tick_spacing)) * ticks_per_array(tick_spacing)
}

/// The start tick of the tick array that holds a tick of the price range:
/// the tick rounded down to a multiple of sixty times the tick spacing.
pub fn tick_array_start_index(tick: i32, tick_spacing: u16) -> (start: Result<i32, Error>)
    ensures
        start is Ok <==> tick_spacing > 0 && tick_in_bounds(tick as int),
        start matches Ok(s) ==> {
            &&& s == array_start(tick as int, tick_spacing)
            &&& s as int % ticks_per_array(tick_spacing) == 0
            &&& s <= tick < s + ticks_per_array(tick_spacing)
        },
        start matches Err(e) ==> e == Error::InvalidTickRange,
{
    if tick_spacing == 0 || tick < MIN_TICK || tick > MAX_TICK {
        return Err(Error::InvalidTickRange);
    }
    let t: i32 = TICK_ARRAY_SIZE * (tick_spacing as i32);
    let q: i32 = floor_div(tick, t);
    proof {
        lemma_fundamental_div_mod(tick as int, t as int);
        lemma_mod_bound(tick as int, t as int);
        assert(-443636 - 3932100 <= q * t <= 443636 && q * t == t * q) by (nonlinear_arith)
            requires
                tick as int == t * q + (tick as int % (t as int)),
                0 <= tick as int % (t as int) < t,
                -443636 <= tick <= 443636,
                0 < t <= 3932100,
        ;
        vstd::arithmetic::div_mod::lemma_fundamental_div_mod_converse(
            (q * t) as int,
            t as int,
            q as int,
            0,
        );
    }
    Ok(q * t)
}

/// The limit price that a swap is sent with: the caller's, or, where the
/// caller sets none, the end of the price range in the trade direction.
pub open spec fn price_limit(limit: Option<u128>, zero_for_one: bool) -> u128 {
    match limit {
        Some(price) => price,
        None => if zero_for_one {
            (MIN_SQRT_PRICE_X64 + 1) as u128
        } else {
            (MAX_SQRT_PRICE_X64 - 1) as u128
        },
    }
}

/// Whether a limit price lies within the price range and beyond the pool's
/// current price in the trade direction: below it when token 0 is traded for
/// token 1, above it otherwise.
pub open spec fn price_limit_valid(limit: u128, zero_for_one: bool, current: u128) -> bool {
    if zero_for_one {
        MIN_SQRT_PRICE_X64 <= limit < current
    } else {
        current < limit <= MAX_SQRT_PRICE_X64
    }
}

/// The limit price that a swap is sent with, checked against the pool's
/// current price.
pub fn resolve_price_limit(limit: Option<u128>, zero_for_one: bool, current: u128) -> (resolved:
    Result<u128, Error>)
    ensures
        resolved is Ok <==> price_limit_valid(price_limit(limit, zero_for_one), zero_for_one, current),
        resolved matches Ok(price) ==> price == price_limit(limit, zero_for_one),
        resolved matches Err(e) ==> e == Error::SlippageExceeded,
{
    let price: u128 = match limit {
        Some(price) => price,
        None => if zero_for_one {
            MIN_SQRT_PRICE_X64 + 1
        } else {
            MAX_SQRT_PRICE_X64 - 1
        },
    };
    if zero_for_one {
        if price < MIN_SQRT_PRICE_X64 || price >= current {
            return Err(Error::SlippageExceeded);
        }
    } else {
        if price > MAX_SQRT_PRICE_X64 || price <= current {
            return Err(Error::SlippageExceeded);
        }
    }
    Ok(price)
}

} // verus!
