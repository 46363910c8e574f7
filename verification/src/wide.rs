use vstd::arithmetic::div_mod::{
    lemma_fundamental_div_mod, lemma_fundamental_div_mod_converse, lemma_mod_bound,
};
use vstd::prelude::*;

verus! {

/// A natural number below two to the power of 256, as two halves of 128 bits.
#[derive(Clone, Copy, Debug, PartialEq, Eq)]
pub struct Wide {
    pub high: u128,
    pub low: u128,
}

impl Wide {
    /// The number that the two halves stand for.
    pub open spec fn value(self) -> nat {
        (self.high as nat) * 0x1_0000_0000_0000_0000_0000_0000_0000_0000 + (self.low as nat)
    }
}

/// Divisors of a wide number stay below two to the power of 96: every
/// square-root price of the price range does.
pub const DIVISOR_LIMIT: u128 = 0x1_0000_0000_0000_0000_0000_0000;

/// The product of two 128-bit numbers.
pub fn mul_wide(a: u128, b: u128) -> (product: Wide)
    ensures
        product.value() == (a as nat) * (b as nat),
{
    let a1: u128 = a / 0x1_0000_0000_0000_0000;
    let a0: u128 = a % 0x1_0000_0000_0000_0000;
    let b1: u128 = b / 0x1_0000_0000_0000_0000;
    let b0: u128 = b % 0x1_0000_0000_0000_0000;
    proof {
        lemma_half_product(a0, b0);
        lemma_half_product(a0, b1);
        lemma_half_product(a1, b0);
        lemma_half_product(a1, b1);
    }
    let low_low: u128 = a0 * b0;
    let low_high: u128 = a0 * b1;
    let high_low: u128 = a1 * b0;
    let high_high: u128 = a1 * b1;
    let mid: u128 = low_low / 0x1_0000_0000_0000_0000 + low_high % 0x1_0000_0000_0000_0000
        + high_low % 0x1_0000_0000_0000_0000;
    let low: u128 = (mid % 0x1_0000_0000_0000_0000) * 0x1_0000_0000_0000_0000 + low_low
        % 0x1_0000_0000_0000_0000;
    let high: u128 = high_high + low_high / 0x1_0000_0000_0000_0000 + high_low
        / 0x1_0000_0000_0000_0000 + mid / 0x1_0000_0000_0000_0000;
    proof {
        let s: int = 0x1_0000_0000_0000_0000;
        lemma_expand(a1 as int, a0 as int, b1 as int, b0 as int, s);
        assert(s * s == 0x1_0000_0000_0000_0000_0000_0000_0000_0000);
        assert((a as int) * (b as int) == (high_high as int) * (s * s) + ((low_high as int) + (
        high_low as int)) * s + (low_low as int));
    }
    Wide { high, low }
}

/// The product of two numbers written in two digits each.
proof fn lemma_expand(x1: int, x0: int, y1: int, y0: int, s: int)
    ensures
        (x1 * s + x0) * (y1 * s + y0) == (x1 * y1) * (s * s) + ((x0 * y1) + (x1 * y0)) * s + x0
            * y0,
{
    let a = x1 * s;
    let b = y1 * s;
    assert((a + x0) * (b + y0) == a * b + a * y0 + x0 * b + x0 * y0) by (nonlinear_arith);
    assert(a * b == (x1 * y1) * (s * s)) by (nonlinear_arith)
        requires
            a == x1 * s,
            b == y1 * s,
    ;
    assert(a * y0 == (x1 * y0) * s) by (nonlinear_arith)
        requires
            a == x1 * s,
    ;
    assert(x0 * b == (x0 * y1) * s) by (nonlinear_arith)
        requires
            b == y1 * s,
    ;
    assert((x0 * y1) * s + (x1 * y0) * s == ((x0 * y1) + (x1 * y0)) * s) by (nonlinear_arith);
}

/// The product of two numbers below two to the power of 64 fits in 128 bits.
proof fn lemma_half_product(x: u128, y: u128)
    requires
        x < 0x1_0000_0000_0000_0000,
        y < 0x1_0000_0000_0000_0000,
    ensures
        x * y <= 0xffff_ffff_ffff_fffe_0000_0000_0000_0001,
{
    assert(x * y <= 0xffff_ffff_ffff_ffff * 0xffff_ffff_ffff_ffff) by (nonlinear_arith)
        requires
            x <= 0xffff_ffff_ffff_ffff,
            y <= 0xffff_ffff_ffff_ffff,
    ;
}

/// The number that the first `k` of a list of 32-bit limbs stand for, the
/// most significant limb first.
pub open spec fn horner(limbs: Seq<u128>, k: int) -> nat
    decreases k,
{
    if k <= 0 {
        0
    } else {
        horner(limbs, k - 1) * 0x1_0000_0000 + (limbs[k - 1] as nat)
    }
}

/// What eight limbs stand for, written out.
proof fn lemma_horner_eight(limbs: Seq<u128>)
    requires
        limbs.len() == 8,
    ensures
        horner(limbs, 8) == ((((limbs[0] as nat) * 0x1_0000_0000 + (limbs[1] as nat))
            * 0x1_0000_0000 + (limbs[2] as nat)) * 0x1_0000_0000 + (limbs[3] as nat))
            * 0x1_0000_0000_0000_0000_0000_0000_0000_0000 + ((((limbs[4] as nat) * 0x1_0000_0000
            + (limbs[5] as nat)) * 0x1_0000_0000 + (limbs[6] as nat)) * 0x1_0000_0000 + (
        limbs[7] as nat)),
{
    assert(horner(limbs, 0) == 0);
    assert(horner(limbs, 1) == limbs[0] as nat);
    assert(horner(limbs, 2) == horner(limbs, 1) * 0x1_0000_0000 + (limbs[1] as nat));
    assert(horner(limbs, 3) == horner(limbs, 2) * 0x1_0000_0000 + (limbs[2] as nat));
    assert(horner(limbs, 4) == horner(limbs, 3) * 0x1_0000_0000 + (limbs[3] as nat));
    assert(horner(limbs, 5) == horner(limbs, 4) * 0x1_0000_0000 + (limbs[4] as nat));
    assert(horner(limbs, 6) == horner(limbs, 5) * 0x1_0000_0000 + (limbs[5] as nat));
    assert(horner(limbs, 7) == horner(limbs, 6) * 0x1_0000_0000 + (limbs[6] as nat));
    assert(horner(limbs, 8) == horner(limbs, 7) * 0x1_0000_0000 + (limbs[7] as nat));
}

/// The four 32-bit limbs of a 128-bit number, the most significant first.
fn quarters(x: u128) -> (q: (u128, u128, u128, u128))
    ensures
        q.0 < 0x1_0000_0000,
        q.1 < 0x1_0000_0000,
        q.2 < 0x1_0000_0000,
        q.3 < 0x1_0000_0000,
        x == ((q.0 * 0x1_0000_0000 + q.1) * 0x1_0000_0000 + q.2) * 0x1_0000_0000 + q.3,
{
    let q3: u128 = x % 0x1_0000_0000;
    let t1: u128 = x / 0x1_0000_0000;
    let q2: u128 = t1 % 0x1_0000_0000;
    let t2: u128 = t1 / 0x1_0000_0000;
    let q1: u128 = t2 % 0x1_0000_0000;
    let q0: u128 = t2 / 0x1_0000_0000;
    (q0, q1, q2, q3)
}

/// The eight 32-bit limbs of a wide number, the most significant first.
fn limbs_of(n: Wide) -> (limbs: [u128; 8])
    ensures
        horner(limbs@, 8) == n.value(),
        forall|i: int| 0 <= i < 8 ==> limbs@[i] < 0x1_0000_0000,
{
    let h = quarters(n.high);
    let l = quarters(n.low);
    let limbs: [u128; 8] = [h.0, h.1, h.2, h.3, l.0, l.1, l.2, l.3];
    proof {
        lemma_horner_eight(limbs@);
    }
    limbs
}

/// The wide number that eight 32-bit limbs stand for.
fn wide_of(limbs: &[u128; 8]) -> (n: Wide)
    requires
        forall|i: int| 0 <= i < 8 ==> limbs@[i] < 0x1_0000_0000,
    ensures
        n.value() == horner(limbs@, 8),
{
    let high: u128 = ((limbs[0] * 0x1_0000_0000 + limbs[1]) * 0x1_0000_0000 + limbs[2])
        * 0x1_0000_0000 + limbs[3];
    let low: u128 = ((limbs[4] * 0x1_0000_0000 + limbs[5]) * 0x1_0000_0000 + limbs[6])
        * 0x1_0000_0000 + limbs[7];
    proof {
        lemma_horner_eight(limbs@);
    }
    Wide { high, low }
}

/// One step of a long division: the next limb is taken down beside the
/// remainder and divided.
proof fn lemma_division_step(prefix: nat, quotient: nat, rem: nat, limb: nat, d: nat, q: nat, r: nat)
    requires
        prefix == quotient * d + rem,
        rem * 0x1_0000_0000 + limb == q * d + r,
    ensures
        prefix * 0x1_0000_0000 + limb == (quotient * 0x1_0000_0000 + q) * d + r,
{
    assert(prefix * 0x1_0000_0000 + limb == (quotient * 0x1_0000_0000 + q) * d + r)
        by (nonlinear_arith)
        requires
            prefix == quotient * d + rem,
            rem * 0x1_0000_0000 + limb == q * d + r,
    ;
}

/// The quotient and the remainder of a wide number by a divisor below two to
/// the power of 96.
pub fn div_wide(n: Wide, d: u128) -> (result: (Wide, u128))
    requires
        0 < d < DIVISOR_LIMIT,
    ensures
        result.0.value() == n.value() / (d as nat),
        result.1 == n.value() % (d as nat),
{
    let limbs = limbs_of(n);
    let mut quotient: [u128; 8] = [0u128; 8];
    let mut rem: u128 = 0;
    let mut k: usize = 0;
    assert(horner(limbs@, 0) == horner(quotient@, 0) * (d as nat) + 0) by {
        assert(0 * (d as nat) == 0) by (nonlinear_arith);
    }
    while k < 8
        invariant
            k <= 8,
            0 < d < DIVISOR_LIMIT,
            rem < d,
            forall|i: int| 0 <= i < 8 ==> limbs@[i] < 0x1_0000_0000,
            forall|i: int| 0 <= i < 8 ==> quotient@[i] < 0x1_0000_0000,
            horner(limbs@, k as int) == horner(quotient@, k as int) * (d as nat) + (rem as nat),
        decreases 8 - k,
    {
        let current: u128 = rem * 0x1_0000_0000 + limbs[k];
        let q: u128 = current / d;
        let r: u128 = current % d;
        proof {
            lemma_fundamental_div_mod(current as int, d as int);
            lemma_mod_bound(current as int, d as int);
            assert(q < 0x1_0000_0000) by (nonlinear_arith)
                requires
                    current as int == (d as int) * (q as int) + (r as int),
                    0 <= r,
                    current < (rem + 1) * 0x1_0000_0000,
                    rem + 1 <= d,
                    d > 0,
            ;
            assert((d as int) * (q as int) == (q as nat) * (d as nat)) by (nonlinear_arith);
            lemma_division_step(
                horner(limbs@, k as int),
                horner(quotient@, k as int),
                rem as nat,
                limbs@[k as int] as nat,
                d as nat,
                q as nat,
                r as nat,
            );
        }
        let ghost before = quotient@;
        quotient[k] = q;
        proof {
            lemma_horner_prefix(before, quotient@, k as int);
        }
        rem = r;
        k += 1;
    }
    let result = wide_of(&quotient);
    proof {
        assert((result.value() as int) * (d as int) == (d as int) * (result.value() as int))
            by (nonlinear_arith);
        lemma_fundamental_div_mod_converse(
            n.value() as int,
            d as int,
            result.value() as int,
            rem as int,
        );
    }
    (result, rem)
}

/// Limbs beyond the first `k` do not change what the first `k` stand for.
proof fn lemma_horner_prefix(a: Seq<u128>, b: Seq<u128>, k: int)
    requires
        0 <= k <= a.len(),
        a.len() == b.len(),
        forall|i: int| 0 <= i < k ==> a[i] == b[i],
    ensures
        horner(a, k) == horner(b, k),
    decreases k,
{
    if k > 0 {
        lemma_horner_prefix(a, b, k - 1);
    }
}

/// What `a * b / d` comes to where it fits in 128 bits, rounded down.
pub open spec fn mul_div_floor_value(a: u128, b: u128, d: u128) -> nat {
    (a as nat) * (b as nat) / (d as nat)
}

/// What `a * b / d` comes to, rounded up.
pub open spec fn mul_div_ceil_value(a: u128, b: u128, d: u128) -> nat {
    ((a as nat) * (b as nat) + (d as nat) - 1) as nat / (d as nat)
}

/// `a * b / d`, rounded down, computed without loss; `None` where the divisor
/// is zero or too large, or the result does not fit in 128 bits.
pub fn mul_div_floor(a: u128, b: u128, d: u128) -> (result: Option<u128>)
    ensures
        result is Some <==> 0 < d < DIVISOR_LIMIT && mul_div_floor_value(a, b, d) <= u128::MAX,
        result matches Some(q) ==> q == mul_div_floor_value(a, b, d),
{
    if d == 0 || d >= DIVISOR_LIMIT {
        return None;
    }
    let (quotient, _) = div_wide(mul_wide(a, b), d);
    if quotient.high != 0 {
        return None;
    }
    Some(quotient.low)
}

/// `a * b / d`, rounded up, computed without loss; `None` where the divisor
/// is zero or too large, or the result does not fit in 128 bits.
pub fn mul_div_ceil(a: u128, b: u128, d: u128) -> (result: Option<u128>)
    ensures
        result is Some <==> 0 < d < DIVISOR_LIMIT && mul_div_ceil_value(a, b, d) <= u128::MAX,
        result matches Some(q) ==> q == mul_div_ceil_value(a, b, d),
{
    if d == 0 || d >= DIVISOR_LIMIT {
        return None;
    }
    let (quotient, rem) = div_wide(mul_wide(a, b), d);
    proof {
        lemma_ceil_split((a as nat) * (b as nat), d as nat);
    }
    if quotient.high != 0 {
        return None;
    }
    if rem == 0 {
        Some(quotient.low)
    } else if quotient.low == u128::MAX {
        None
    } else {
        Some(quotient.low + 1)
    }
}

/// Rounding up adds one to the quotient where a remainder is left.
pub proof fn lemma_ceil_split(n: nat, d: nat)
    requires
        d > 0,
    ensures
        (n + d - 1) as nat / d == n / d + (if n % d == 0 {
            0nat
        } else {
            1nat
        }),
{
    let q = n / d;
    let r = n % d;
    lemma_fundamental_div_mod(n as int, d as int);
    lemma_mod_bound(n as int, d as int);
    if r == 0 {
        assert(n + d - 1 == q * d + (d - 1)) by (nonlinear_arith)
            requires
                n == d * q + r,
                r == 0,
        ;
        lemma_fundamental_div_mod_converse((n + d - 1) as int, d as int, q as int, (d - 1) as int);
    } else {
        assert(n + d - 1 == (q + 1) * d + (r - 1)) by (nonlinear_arith)
            requires
                n == d * q + r,
        ;
        lemma_fundamental_div_mod_converse(
            (n + d - 1) as int,
            d as int,
            (q + 1) as int,
            (r - 1) as int,
        );
    }
}

} // verus!
