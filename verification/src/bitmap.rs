use crate::error::Error;
use crate::state::{PoolState, TickArrayBitmapExtension};
use vstd::arithmetic::div_mod::lemma_fundamental_div_mod_converse;
use vstd::prelude::*;

verus! {

/// Number of ticks held by one tick array.
pub const TICK_ARRAY_SIZE: i32 = 60;

/// The lowest tick of the protocol's price range.
pub const MIN_TICK: i32 = -443636;

/// The highest tick of the protocol's price range.
pub const MAX_TICK: i32 = 443636;

/// Whether the given bit of a word is set.
pub open spec fn bit_set(word: u64, bit: u64) -> bool {
    (word >> bit) & 1u64 == 1u64
}

/// Ticks covered by one tick array of a pool with the given spacing.
pub open spec fn ticks_per_array(tick_spacing: u16) -> int {
    TICK_ARRAY_SIZE * (tick_spacing as int)
}

/// The two bitmaps as one. Tick arrays are numbered by their offset from tick
/// zero: array `k` starts at tick `k * ticks_per_array`. The joined bitmap has
/// one bit for each offset from -7680 to 7679, in rising order, 64 to a word:
/// first the rows of the extension's negative side, the farthest row first,
/// then the pool's own 1024 bits, then the rows of the positive side.
pub open spec fn joined_word(pool: &PoolState, ext: &TickArrayBitmapExtension, w: int) -> u64 {
    if w < 112 {
        ext.negative_tick_array_bitmap@[13 - w / 8]@[w % 8]
    } else if w < 128 {
        pool.tick_array_bitmap@[w - 112]
    } else {
        ext.positive_tick_array_bitmap@[(w - 128) / 8]@[(w - 128) % 8]
    }
}

/// Whether bit `p` of the joined bitmap is set.
pub open spec fn position_set(pool: &PoolState, ext: &TickArrayBitmapExtension, p: int) -> bool {
    0 <= p < 15360 && bit_set(joined_word(pool, ext, p / 64), (p % 64) as u64)
}

/// Whether the tick array at offset `k` overlaps the price range.
pub open spec fn offset_in_bounds(tick_spacing: u16, k: int) -> bool {
    &&& tick_spacing > 0
    &&& MIN_TICK as int / ticks_per_array(tick_spacing) <= k
    &&& k <= MAX_TICK as int / ticks_per_array(tick_spacing)
}

/// Whether the tick array at offset `k` is initialized: it lies within the
/// price range and its bit is set.
pub open spec fn offset_initialized(
    pool: &PoolState,
    ext: &TickArrayBitmapExtension,
    k: int,
) -> bool {
    offset_in_bounds(pool.tick_spacing, k) && position_set(pool, ext, k + 7680)
}

/// Whether a tick array that starts at tick `start` is initialized.
pub open spec fn start_initialized(
    pool: &PoolState,
    ext: &TickArrayBitmapExtension,
    start: int,
) -> bool {
    &&& pool.tick_spacing > 0
    &&& start % ticks_per_array(pool.tick_spacing) == 0
    &&& offset_initialized(pool, ext, start / ticks_per_array(pool.tick_spacing))
}

/// Whether `k` is the initialized offset nearest to `from` in the trade
/// direction, `from` itself left out: below it when trading token 0 for
/// token 1, above it otherwise.
pub open spec fn is_next_offset(
    pool: &PoolState,
    ext: &TickArrayBitmapExtension,
    from: int,
    zero_for_one: bool,
    k: int,
) -> bool {
    &&& offset_initialized(pool, ext, k)
    &&& if zero_for_one {
        k < from && forall|j: int| k < j < from ==> !offset_initialized(pool, ext, j)
    } else {
        from < k && forall|j: int| from < j < k ==> !offset_initialized(pool, ext, j)
    }
}

/// Whether any initialized offset lies beyond `from` in the trade direction.
pub open spec fn has_next_offset(
    pool: &PoolState,
    ext: &TickArrayBitmapExtension,
    from: int,
    zero_for_one: bool,
) -> bool {
    exists|k: int|
        #[trigger] offset_initialized(pool, ext, k) && if zero_for_one {
            k < from
        } else {
            from < k
        }
}

/// The nearest initialized offset beyond `from` is unique.
pub proof fn lemma_next_offset_unique(
    pool: &PoolState,
    ext: &TickArrayBitmapExtension,
    from: int,
    zero_for_one: bool,
    k1: int,
    k2: int,
)
    requires
        is_next_offset(pool, ext, from, zero_for_one, k1),
        is_next_offset(pool, ext, from, zero_for_one, k2),
    ensures
        k1 == k2,
{
}

/// The lowest and the highest offset that overlap the price range lie within
/// the reach of the bitmaps.
pub proof fn lemma_range_bounds(tick_spacing: u16)
    requires
        tick_spacing > 0,
    ensures
        -7394 <= MIN_TICK as int / ticks_per_array(tick_spacing) <= -1,
        0 <= MAX_TICK as int / ticks_per_array(tick_spacing) <= 7393,
        -4375736 <= (MIN_TICK as int / ticks_per_array(tick_spacing)) * ticks_per_array(
            tick_spacing,
        ),
        (MAX_TICK as int / ticks_per_array(tick_spacing)) * ticks_per_array(tick_spacing)
            <= 443636,
{
    let t = ticks_per_array(tick_spacing);
    let lo = MIN_TICK as int / t;
    let hi = MAX_TICK as int / t;
    assert(60 <= t <= 3932100);
    vstd::arithmetic::div_mod::lemma_fundamental_div_mod(MIN_TICK as int, t);
    vstd::arithmetic::div_mod::lemma_fundamental_div_mod(MAX_TICK as int, t);
    vstd::arithmetic::div_mod::lemma_mod_bound(MIN_TICK as int, t);
    vstd::arithmetic::div_mod::lemma_mod_bound(MAX_TICK as int, t);
    let rl = (MIN_TICK as int) % t;
    let rh = (MAX_TICK as int) % t;
    assert(-443636 == t * lo + rl);
    assert(443636 == t * hi + rh);
    assert(hi <= 7393 && hi >= 0 && hi * t <= 443636) by (nonlinear_arith)
        requires
            443636 == t * hi + rh,
            0 <= rh < t,
            t >= 60,
    ;
    assert(lo >= -7394 && lo <= -1 && lo * t >= -443636 - t) by (nonlinear_arith)
        requires
            -443636 == t * lo + rl,
            0 <= rl < t,
            t >= 60,
    ;
}

/// The offsets that overlap the price range lie within the reach of the
/// bitmaps, and their start ticks fit in 32 bits.
pub proof fn lemma_offset_bounds(tick_spacing: u16, k: int)
    requires
        offset_in_bounds(tick_spacing, k),
    ensures
        -7394 <= k <= 7393,
        -4375736 <= k * ticks_per_array(tick_spacing) <= 443636,
{
    let t = ticks_per_array(tick_spacing);
    let lo = MIN_TICK as int / t;
    let hi = MAX_TICK as int / t;
    lemma_range_bounds(tick_spacing);
    assert(lo * t <= k * t <= hi * t) by (nonlinear_arith)
        requires
            lo <= k <= hi,
            t > 0,
    ;
}

/// Floor division by a positive divisor.
pub fn floor_div(a: i32, d: i32) -> (q: i32)
    requires
        d > 0,
    ensures
        q == (a as int) / (d as int),
{
    if a >= 0 {
        let q: u32 = (a as u32) / (d as u32);
        q as i32
    } else {
        let n: u64 = (-(a as i64)) as u64;
        let dd: u64 = d as u64;
        let c: u64 = (n + dd - 1) / dd;
        let r: u64 = (n + dd - 1) % dd;
        proof {
            vstd::arithmetic::div_mod::lemma_fundamental_div_mod((n + dd - 1) as int, dd as int);
            assert(n + dd - 1 == dd * c + r);
            assert((a as int) == (-(c as int)) * (dd as int) + (dd - 1 - r)) by (nonlinear_arith)
                requires
                    n + dd - 1 == dd * c + r,
                    a as int == -(n as int),
            ;
            lemma_fundamental_div_mod_converse(
                a as int,
                d as int,
                -(c as int),
                (dd - 1 - r) as int,
            );
            assert(c <= n) by (nonlinear_arith)
                requires
                    n + dd - 1 == dd * c + r,
                    dd >= 1,
                    r >= 0,
                    n >= 1,
            ;
        }
        (-(c as i64)) as i32
    }
}

/// Word `w` of the joined bitmap.
fn word_at(pool: &PoolState, ext: &TickArrayBitmapExtension, w: usize) -> (word: u64)
    requires
        w < 240,
    ensures
        word == joined_word(pool, ext, w as int),
{
    if w < 112 {
        ext.negative_tick_array_bitmap[13 - w / 8][w % 8]
    } else if w < 128 {
        pool.tick_array_bitmap[w - 112]
    } else {
        ext.positive_tick_array_bitmap[(w - 128) / 8][(w - 128) % 8]
    }
}

/// Whether bit `p` of the joined bitmap is set.
fn bit_at(pool: &PoolState, ext: &TickArrayBitmapExtension, p: usize) -> (set: bool)
    requires
        p < 15360,
    ensures
        set == position_set(pool, ext, p as int),
{
    let word = word_at(pool, ext, p / 64);
    let bit: u64 = (p % 64) as u64;
    (word >> bit) & 1u64 == 1u64
}

/// No bit of the zero word is set.
proof fn lemma_zero_word(bit: u64)
    requires
        bit < 64,
    ensures
        !bit_set(0u64, bit),
{
    assert((0u64 >> bit) & 1u64 != 1u64) by (bit_vector)
        requires
            bit < 64,
    ;
}

/// The highest set bit of the joined bitmap in `lo..from`.
fn scan_down(pool: &PoolState, ext: &TickArrayBitmapExtension, from: usize, lo: usize) -> (found:
    Option<usize>)
    requires
        lo <= from <= 15360,
    ensures
        match found {
            Some(p) => {
                &&& lo <= p < from
                &&& position_set(pool, ext, p as int)
                &&& forall|j: int| p < j < from ==> !position_set(pool, ext, j)
            },
            None => forall|j: int| lo <= j < from ==> !position_set(pool, ext, j),
        },
{
    let mut p: usize = from;
    while p > lo
        invariant
            lo <= p <= from <= 15360,
            forall|j: int| p <= j < from ==> !position_set(pool, ext, j),
        decreases p,
    {
        let q: usize = p - 1;
        let w: usize = q / 64;
        let word = word_at(pool, ext, w);
        if word == 0 {
            let base: usize = w * 64;
            assert forall|j: int| base <= j < p implies !position_set(pool, ext, j) by {
                assert(j / 64 == w as int);
                lemma_zero_word((j % 64) as u64);
            }
            p = if base > lo {
                base
            } else {
                lo
            };
        } else {
            if bit_at(pool, ext, q) {
                return Some(q);
            }
            p = q;
        }
    }
    None
}

/// The lowest set bit of the joined bitmap in `from..hi`.
fn scan_up(pool: &PoolState, ext: &TickArrayBitmapExtension, from: usize, hi: usize) -> (found:
    Option<usize>)
    requires
        from <= hi <= 15360,
    ensures
        match found {
            Some(p) => {
                &&& from <= p < hi
                &&& position_set(pool, ext, p as int)
                &&& forall|j: int| from <= j < p ==> !position_set(pool, ext, j)
            },
            None => forall|j: int| from <= j < hi ==> !position_set(pool, ext, j),
        },
{
    let mut p: usize = from;
    while p < hi
        invariant
            from <= p <= hi <= 15360,
            forall|j: int| from <= j < p ==> !position_set(pool, ext, j),
        decreases hi - p,
    {
        let w: usize = p / 64;
        let word = word_at(pool, ext, w);
        if word == 0 {
            let end: usize = w * 64 + 64;
            assert forall|j: int| p <= j < end implies !position_set(pool, ext, j) by {
                assert(j / 64 == w as int);
                lemma_zero_word((j % 64) as u64);
            }
            p = if end < hi {
                end
            } else {
                hi
            };
        } else {
            if bit_at(pool, ext, p) {
                return Some(p);
            }
            p = p + 1;
        }
    }
    None
}

/// Whether `start` is the start tick of the initialized tick array nearest to
/// the array that holds `from_tick`, in the trade direction, that array left out.
pub open spec fn is_next_start(
    pool: &PoolState,
    ext: &TickArrayBitmapExtension,
    from_tick: int,
    zero_for_one: bool,
    start: int,
) -> bool {
    &&& pool.tick_spacing > 0
    &&& start % ticks_per_array(pool.tick_spacing) == 0
    &&& is_next_offset(
        pool,
        ext,
        from_tick / ticks_per_array(pool.tick_spacing),
        zero_for_one,
        start / ticks_per_array(pool.tick_spacing),
    )
}

/// Whether an initialized tick array lies beyond the array that holds
/// `from_tick` in the trade direction.
pub open spec fn has_next_start(
    pool: &PoolState,
    ext: &TickArrayBitmapExtension,
    from_tick: int,
    zero_for_one: bool,
) -> bool {
    pool.tick_spacing > 0 && has_next_offset(
        pool,
        ext,
        from_tick / ticks_per_array(pool.tick_spacing),
        zero_for_one,
    )
}

/// Whether `start` is where a swap begins: the array that holds the pool's
/// current tick if it is initialized, else the nearest initialized array in
/// the trade direction.
pub open spec fn is_first_start(
    pool: &PoolState,
    ext: &TickArrayBitmapExtension,
    zero_for_one: bool,
    start: int,
) -> bool {
    &&& pool.tick_spacing > 0
    &&& start % ticks_per_array(pool.tick_spacing) == 0
    &&& if offset_initialized(
        pool,
        ext,
        pool.tick_current as int / ticks_per_array(pool.tick_spacing),
    ) {
        start / ticks_per_array(pool.tick_spacing) == pool.tick_current as int / ticks_per_array(
            pool.tick_spacing,
        )
    } else {
        is_next_start(pool, ext, pool.tick_current as int, zero_for_one, start)
    }
}

/// Whether a swap in the given direction has a tick array to begin at.
pub open spec fn has_first_start(
    pool: &PoolState,
    ext: &TickArrayBitmapExtension,
    zero_for_one: bool,
) -> bool {
    &&& pool.tick_spacing > 0
    &&& (offset_initialized(
        pool,
        ext,
        pool.tick_current as int / ticks_per_array(pool.tick_spacing),
    ) || has_next_start(pool, ext, pool.tick_current as int, zero_for_one))
}

/// A multiple of a positive number divides back to its factor.
proof fn lemma_multiple(k: int, t: int)
    requires
        t > 0,
    ensures
        (k * t) % t == 0,
        (k * t) / t == k,
{
    lemma_fundamental_div_mod_converse(k * t, t, k, 0);
}

/// Ticks covered by one tick array of the pool.
fn array_ticks(tick_spacing: u16) -> (t: i32)
    requires
        tick_spacing > 0,
    ensures
        t == ticks_per_array(tick_spacing),
        60 <= t <= 3932100,
{
    TICK_ARRAY_SIZE * (tick_spacing as i32)
}

/// The start tick of the initialized tick array nearest to the one that holds
/// `last_tick_array_start_index`, strictly further in the trade direction.
/// The pool's own bitmap and the extension are searched as one.
pub fn next_initialized_tick_array_start_index(
    pool: &PoolState,
    ext: &TickArrayBitmapExtension,
    last_tick_array_start_index: i32,
    zero_for_one: bool,
) -> (next: Option<i32>)
    ensures
        match next {
            Some(start) => is_next_start(
                pool,
                ext,
                last_tick_array_start_index as int,
                zero_for_one,
                start as int,
            ),
            None => !has_next_start(pool, ext, last_tick_array_start_index as int, zero_for_one),
        },
{
    if pool.tick_spacing == 0 {
        return None;
    }
    let t: i32 = array_ticks(pool.tick_spacing);
    let from: i32 = floor_div(last_tick_array_start_index, t);
    let lo_k: i32 = floor_div(MIN_TICK, t);
    let hi_k: i32 = floor_div(MAX_TICK, t);
    proof {
        lemma_range_bounds(pool.tick_spacing);
        assert(-35791395 <= from <= 35791394) by (nonlinear_arith)
            requires
                from == (last_tick_array_start_index as int) / (t as int),
                t >= 60,
                -2147483648 <= last_tick_array_start_index <= 2147483647,
        ;
    }
    if zero_for_one {
        let upper: i32 = if from <= hi_k {
            from
        } else {
            hi_k + 1
        };
        if upper <= lo_k {
            return None;
        }
        let found = scan_down(pool, ext, (upper + 7680) as usize, (lo_k + 7680) as usize);
        match found {
            Some(p) => {
                let k: i32 = (p as i32) - 7680;
                proof {
                    lemma_offset_bounds(pool.tick_spacing, k as int);
                    lemma_multiple(k as int, t as int);
                    assert forall|j: int| k < j < from implies !offset_initialized(
                        pool,
                        ext,
                        j,
                    ) by {
                        if j < upper {
                            assert(!position_set(pool, ext, j + 7680));
                        }
                    }
                }
                Some(k * t)
            },
            None => {
                proof {
                    assert forall|j: int| j < from implies !offset_initialized(pool, ext, j) by {
                        if lo_k <= j < upper {
                            assert(!position_set(pool, ext, j + 7680));
                        }
                    }
                }
                None
            },
        }
    } else {
        let lower: i32 = if from >= lo_k {
            from + 1
        } else {
            lo_k
        };
        if lower > hi_k {
            return None;
        }
        let found = scan_up(pool, ext, (lower + 7680) as usize, (hi_k + 1 + 7680) as usize);
        match found {
            Some(p) => {
                let k: i32 = (p as i32) - 7680;
                proof {
                    lemma_offset_bounds(pool.tick_spacing, k as int);
                    lemma_multiple(k as int, t as int);
                    assert forall|j: int| from < j < k implies !offset_initialized(
                        pool,
                        ext,
                        j,
                    ) by {
                        if lower <= j {
                            assert(!position_set(pool, ext, j + 7680));
                        }
                    }
                }
                Some(k * t)
            },
            None => {
                proof {
                    assert forall|j: int| from < j implies !offset_initialized(pool, ext, j) by {
                        if lower <= j <= hi_k {
                            assert(!position_set(pool, ext, j + 7680));
                        }
                    }
                }
                None
            },
        }
    }
}

/// Whether the tick array at the given offset is initialized.
fn offset_is_initialized(pool: &PoolState, ext: &TickArrayBitmapExtension, k: i32) -> (set: bool)
    requires
        pool.tick_spacing > 0,
    ensures
        set == offset_initialized(pool, ext, k as int),
{
    let t: i32 = array_ticks(pool.tick_spacing);
    let lo_k: i32 = floor_div(MIN_TICK, t);
    let hi_k: i32 = floor_div(MAX_TICK, t);
    proof {
        lemma_range_bounds(pool.tick_spacing);
    }
    if k < lo_k || k > hi_k {
        return false;
    }
    bit_at(pool, ext, (k + 7680) as usize)
}

/// Where a swap in the given direction begins: the start tick of the first
/// initialized tick array at the pool's current tick or beyond it, and
/// whether that is the array that holds the current tick.
pub fn get_first_initialized_tick_array(
    pool: &PoolState,
    ext: &TickArrayBitmapExtension,
    zero_for_one: bool,
) -> (first: Result<(bool, i32), Error>)
    ensures
        first is Ok <==> has_first_start(pool, ext, zero_for_one),
        first matches Ok((holds_current, start)) ==> {
            &&& is_first_start(pool, ext, zero_for_one, start as int)
            &&& holds_current == offset_initialized(
                pool,
                ext,
                pool.tick_current as int / ticks_per_array(pool.tick_spacing),
            )
        },
        first matches Err(e) ==> e == Error::NoInitializedTickArray,
{
    if pool.tick_spacing == 0 {
        return Err(Error::NoInitializedTickArray);
    }
    let t: i32 = array_ticks(pool.tick_spacing);
    let current: i32 = floor_div(pool.tick_current, t);
    if offset_is_initialized(pool, ext, current) {
        proof {
            lemma_offset_bounds(pool.tick_spacing, current as int);
            lemma_multiple(current as int, t as int);
        }
        return Ok((true, current * t));
    }
    match next_initialized_tick_array_start_index(pool, ext, pool.tick_current, zero_for_one) {
        Some(start) => Ok((false, start)),
        None => Err(Error::NoInitializedTickArray),
    }
}

} // verus!
