use crate::bitmap::{MAX_TICK, MIN_TICK};
use crate::error::Error;
use crate::tick::tick_in_bounds;
use vstd::prelude::*;

verus! {

/// The factors of the price grid, as fixed-point numbers with 64 fractional
/// bits: factor `i` stands for the square root of 1.0001 to the power of
/// minus two to the `i`.
pub open spec fn sqrt_factor(i: int) -> u128 {
    if i == 0 {
        0xfffcb933bd6fb800
    } else if i == 1 {
        0xfff97272373d4000
    } else if i == 2 {
        0xfff2e50f5f657000
    } else if i == 3 {
        0xffe5caca7e10f000
    } else if i == 4 {
        0xffcb9843d60f7000
    } else if i == 5 {
        0xff973b41fa98e800
    } else if i == 6 {
        0xff2ea16466c9b000
    } else if i == 7 {
        0xfe5dee046a9a3800
    } else if i == 8 {
        0xfcbe86c7900bb000
    } else if i == 9 {
        0xf987a7253ac65800
    } else if i == 10 {
        0xf3392b0822bb6000
    } else if i == 11 {
        0xe7159475a2caf000
    } else if i == 12 {
        0xd097f3bdfd2f2000
    } else if i == 13 {
        0xa9f746462d9f8000
    } else if i == 14 {
        0x70d869a156f31c00
    } else if i == 15 {
        0x31be135f97ed3200
    } else if i == 16 {
        0x9aa508b5b85a500
    } else if i == 17 {
        0x5d6af8dedc582c
    } else {
        0x2216e584f5fa
    }
}

/// Factor `i` of the price grid.
pub fn factor(i: usize) -> (f: u128)
    requires
        i < 19,
    ensures
        f == sqrt_factor(i as int),
        0 < f < 0x1_0000_0000_0000_0000,
{
    if i == 0 {
        0xfffcb933bd6fb800
    } else if i == 1 {
        0xfff97272373d4000
    } else if i == 2 {
        0xfff2e50f5f657000
    } else if i == 3 {
        0xffe5caca7e10f000
    } else if i == 4 {
        0xffcb9843d60f7000
    } else if i == 5 {
        0xff973b41fa98e800
    } else if i == 6 {
        0xff2ea16466c9b000
    } else if i == 7 {
        0xfe5dee046a9a3800
    } else if i == 8 {
        0xfcbe86c7900bb000
    } else if i == 9 {
        0xf987a7253ac65800
    } else if i == 10 {
        0xf3392b0822bb6000
    } else if i == 11 {
        0xe7159475a2caf000
    } else if i == 12 {
        0xd097f3bdfd2f2000
    } else if i == 13 {
        0xa9f746462d9f8000
    } else if i == 14 {
        0x70d869a156f31c00
    } else if i == 15 {
        0x31be135f97ed3200
    } else if i == 16 {
        0x9aa508b5b85a500
    } else if i == 17 {
        0x5d6af8dedc582c
    } else {
        0x2216e584f5fa
    }
}

/// One step on the price grid: a ratio times a factor, as fixed-point numbers.
pub open spec fn scaled(ratio: nat, i: int) -> nat {
    ratio * (sqrt_factor(i) as nat) / 0x1_0000_0000_0000_0000
}

/// The ratio after the factors of the bits `i` and above of a tick's
/// magnitude have been applied, `rest` holding those bits.
pub open spec fn apply_bits(ratio: nat, rest: nat, i: int) -> nat
    decreases 19 - i,
{
    if i >= 19 {
        ratio
    } else {
        apply_bits(
            if rest % 2 == 1 {
                scaled(ratio, i)
            } else {
                ratio
            },
            rest / 2,
            i + 1,
        )
    }
}

/// The square-root price at a tick, as a fixed-point number with 64
/// fractional bits: for a tick below zero the product of the factors of the
/// bits of its magnitude, for a tick above zero the reciprocal of that
/// product. The square-root price at tick zero is one.
pub open spec fn sqrt_price_at_tick(tick: int) -> nat {
    let magnitude = if tick < 0 {
        (-tick) as nat
    } else {
        tick as nat
    };
    let ratio = apply_bits(0x1_0000_0000_0000_0000, magnitude, 0);
    if tick > 0 {
        0xffff_ffff_ffff_ffff_ffff_ffff_ffff_ffffnat / ratio
    } else {
        ratio
    }
}

/// The least that a ratio can be after the factors of the bits below `i`:
/// what is left when all of them are set.
pub open spec fn least_ratio(i: int) -> nat {
    if i == 0 {
        0x10000000000000000
    } else if i == 1 {
        0xfffcb933bd6fb800
    } else if i == 2 {
        0xfff62bbb6d459859
    } else if i == 3 {
        0xffe9114b9cf29d9a
    } else if i == 4 {
        0xffcede6f1d8c0483
    } else if i == 5 {
        0xff9a80c1ada77220
    } else if i == 6 {
        0xff31e58d5a5419c2
    } else if i == 7 {
        0xfe612f8183b280e0
    } else if i == 8 {
        0xfcc1c2f3805495f4
    } else if i == 9 {
        0xf98ad8c8d7ef0a9a
    } else if i == 10 {
        0xf33c480189b8868b
    } else if i == 11 {
        0xe71889a8590c5dc9
    } else if i == 12 {
        0xd09a9f3e93ea6d30
    } else if i == 13 {
        0xa9f973345bb6e56f
    } else if i == 14 {
        0x70d9db648610cc7e
    } else if i == 15 {
        0x31beb65d91cc07af
    } else if i == 16 {
        0x9aa7036fd2e7648
    } else if i == 17 {
        0x5d6c2af97b81a7
    } else if i == 18 {
        0x221755388b03
    } else {
        0x48a25e3
    }
}

/// A step on the price grid does not raise a ratio, and keeps it above the
/// least ratio of the next bit.
proof fn lemma_scaled_bounds(ratio: nat, i: int)
    requires
        0 <= i < 19,
        least_ratio(i) <= ratio <= 0x1_0000_0000_0000_0000,
    ensures
        least_ratio(i + 1) <= scaled(ratio, i) <= ratio,
        least_ratio(i + 1) <= ratio,
        ratio * (sqrt_factor(i) as nat) < 0x1_0000_0000_0000_0000_0000_0000_0000_0000,
{
    let f = sqrt_factor(i) as nat;
    let low = least_ratio(i);
    assert(0 < f < 0x1_0000_0000_0000_0000);
    assert(least_ratio(i + 1) == low * f / 0x1_0000_0000_0000_0000);
    assert(low * f <= ratio * f) by (nonlinear_arith)
        requires
            low <= ratio,
    ;
    assert(ratio * f <= ratio * 0x1_0000_0000_0000_0000) by (nonlinear_arith)
        requires
            f < 0x1_0000_0000_0000_0000,
    ;
    assert(ratio * f <= 0x1_0000_0000_0000_0000 * f) by (nonlinear_arith)
        requires
            ratio <= 0x1_0000_0000_0000_0000,
    ;
    assert(0x1_0000_0000_0000_0000 * f < 0x1_0000_0000_0000_0000_0000_0000_0000_0000)
        by (nonlinear_arith)
        requires
            f < 0x1_0000_0000_0000_0000,
    ;
    vstd::arithmetic::div_mod::lemma_div_is_ordered(
        (low * f) as int,
        (ratio * f) as int,
        0x1_0000_0000_0000_0000,
    );
    vstd::arithmetic::div_mod::lemma_div_is_ordered(
        (ratio * f) as int,
        (ratio * 0x1_0000_0000_0000_0000) as int,
        0x1_0000_0000_0000_0000,
    );
    vstd::arithmetic::div_mod::lemma_div_multiples_vanish(ratio as int, 0x1_0000_0000_0000_0000);
    assert(ratio * 0x1_0000_0000_0000_0000 == 0x1_0000_0000_0000_0000 * ratio)
        by (nonlinear_arith);
}

/// The square-root price at a tick of the price range.
pub fn get_sqrt_price_at_tick(tick: i32) -> (price: Result<u128, Error>)
    ensures
        price is Ok <==> tick_in_bounds(tick as int),
        price matches Ok(p) ==> p == sqrt_price_at_tick(tick as int) && p > 0,
        price matches Err(e) ==> e == Error::InvalidTickRange,
{
    if tick < MIN_TICK || tick > MAX_TICK {
        return Err(Error::InvalidTickRange);
    }
    let magnitude: u32 = if tick < 0 {
        (-tick) as u32
    } else {
        tick as u32
    };
    let mut ratio: u128 = 0x1_0000_0000_0000_0000;
    let mut rest: u32 = magnitude;
    let mut i: usize = 0;
    while i < 19
        invariant
            i <= 19,
            least_ratio(i as int) <= ratio <= 0x1_0000_0000_0000_0000,
            apply_bits(ratio as nat, rest as nat, i as int) == apply_bits(
                0x1_0000_0000_0000_0000,
                magnitude as nat,
                0,
            ),
        decreases 19 - i,
    {
        proof {
            lemma_scaled_bounds(ratio as nat, i as int);
        }
        if rest % 2 == 1 {
            ratio = ratio * factor(i) / 0x1_0000_0000_0000_0000;
        }
        rest = rest / 2;
        i += 1;
    }
    assert(apply_bits(ratio as nat, rest as nat, 19) == ratio as nat);
    assert(ratio >= 1);
    if tick > 0 {
        assert(0xffff_ffff_ffff_ffff_ffff_ffff_ffff_ffffnat / (ratio as nat) >= 1)
            by (nonlinear_arith)
            requires
                1 <= ratio <= 0x1_0000_0000_0000_0000,
        ;
        Ok(u128::MAX / ratio)
    } else {
        Ok(ratio)
    }
}

/// The tick at a square-root price: the tick whose square-root price is the
/// highest that does not exceed the given one. Going from a price to its
/// tick and back loses less than the step to the next tick.
pub fn get_tick_at_sqrt_price(sqrt_price_x64: u128) -> (tick: Result<i32, Error>)
    ensures
        tick is Ok <==> sqrt_price_at_tick(MIN_TICK as int) <= sqrt_price_x64 < sqrt_price_at_tick(
            MAX_TICK as int,
        ),
        tick matches Ok(t) ==> {
            &&& MIN_TICK <= t < MAX_TICK
            &&& sqrt_price_at_tick(t as int) <= sqrt_price_x64 < sqrt_price_at_tick(t + 1)
        },
        tick matches Err(e) ==> e == Error::InvalidTickRange,
{
    let lowest = match get_sqrt_price_at_tick(MIN_TICK) {
        Ok(p) => p,
        Err(e) => {
            return Err(e);
        },
    };
    let highest = match get_sqrt_price_at_tick(MAX_TICK) {
        Ok(p) => p,
        Err(e) => {
            return Err(e);
        },
    };
    if sqrt_price_x64 < lowest || sqrt_price_x64 >= highest {
        return Err(Error::InvalidTickRange);
    }
    let mut low: i32 = MIN_TICK;
    let mut high: i32 = MAX_TICK;
    while high - low > 1
        invariant
            MIN_TICK <= low < high <= MAX_TICK,
            sqrt_price_at_tick(low as int) <= sqrt_price_x64 < sqrt_price_at_tick(high as int),
        decreases high - low,
    {
        let middle: i32 = low + (high - low) / 2;
        match get_sqrt_price_at_tick(middle) {
            Ok(p) => {
                if p <= sqrt_price_x64 {
                    low = middle;
                } else {
                    high = middle;
                }
            },
            Err(e) => {
                return Err(e);
            },
        }
    }
    Ok(low)
}

} // verus!
