//! Double-precision numbers of IEEE 754, told by their bits.
//!
//! A number is a whole multiple of the smallest positive double, which is the unit in
//! which the specifications measure. Where the sum of two numbers is no double, it is
//! rounded to the nearest one, and to the even one of two that are equally near.
use vstd::arithmetic::div_mod::{lemma_fundamental_div_mod, lemma_fundamental_div_mod_converse};
use vstd::arithmetic::power2::{
    lemma2_to64, lemma2_to64_rest, lemma_pow2_adds, lemma_pow2_pos, lemma_pow2_strictly_increases,
    lemma_pow2_unfold, pow2,
};
use vstd::prelude::*;

verus! {

/// Whether the sign bit is set.
pub open spec fn is_negative(bits: u64) -> bool {
    bits >= 0x8000_0000_0000_0000
}

/// The eleven bits of the exponent.
pub open spec fn exponent(bits: u64) -> int {
    (bits / 0x10_0000_0000_0000) as int % 2048
}

/// The fifty-two bits of the fraction.
pub open spec fn fraction(bits: u64) -> int {
    bits as int % 0x10_0000_0000_0000
}

/// Whether the bits stand for no number.
pub open spec fn is_nan(bits: u64) -> bool {
    exponent(bits) == 2047 && fraction(bits) != 0
}

/// One, in units of the smallest positive double.
pub open spec fn one() -> int {
    pow2(1074) as int
}

/// How far the number is from zero, in units of the smallest positive double. Of an
/// infinity it is more than of any other number.
pub open spec fn distance(bits: u64) -> int {
    if exponent(bits) == 0 {
        fraction(bits)
    } else {
        (0x10_0000_0000_0000 + fraction(bits)) * pow2((exponent(bits) - 1) as nat)
    }
}

/// The number, in units of the smallest positive double.
pub open spec fn number(bits: u64) -> int {
    if is_negative(bits) {
        -distance(bits)
    } else {
        distance(bits)
    }
}

/// Whether the number lies between `-limit` and `limit`.
pub open spec fn is_within(bits: u64, limit: int) -> bool {
    !is_nan(bits) && -limit * one() <= number(bits) <= limit * one()
}

/// `x / g`, rounded to the nearest whole number, and to the even one of two that are
/// equally near.
pub open spec fn nearest(x: nat, g: nat) -> nat
    recommends
        g > 0,
{
    if 2 * (x % g) < g {
        x / g
    } else if 2 * (x % g) > g {
        x / g + 1
    } else {
        x / g + (x / g) % 2
    }
}

/// The distance between the doubles around `x`: they have 53 binary digits.
pub open spec fn spacing(x: nat) -> nat
    decreases x,
{
    if x < 0x20_0000_0000_0000 {
        1
    } else {
        2 * spacing(x / 2)
    }
}

/// The double nearest to `x`.
pub open spec fn rounded(x: nat) -> nat {
    spacing(x) * nearest(x, spacing(x))
}

/// Half of the sum of two numbers, as doubles give it.
pub open spec fn middle(a: int, b: int) -> int {
    if a + b < 0 {
        -nearest(rounded((-(a + b)) as nat), 2)
    } else {
        nearest(rounded((a + b) as nat), 2) as int
    }
}

/// The power of two that the number is a multiple of by its exponent.
spec fn scale(bits: u64) -> nat {
    if exponent(bits) == 0 {
        0
    } else {
        (exponent(bits) - 1) as nat
    }
}

/// How many times the number is that power.
spec fn significand(bits: u64) -> int {
    if exponent(bits) == 0 {
        fraction(bits)
    } else {
        0x10_0000_0000_0000 + fraction(bits)
    }
}

proof fn lemma_distance(bits: u64)
    ensures
        distance(bits) == significand(bits) * pow2(scale(bits)),
        0 <= significand(bits) < 0x20_0000_0000_0000,
        scale(bits) > 0 ==> significand(bits) >= 0x10_0000_0000_0000,
        0 <= distance(bits),
{
    lemma2_to64();
    lemma_pow2_pos(scale(bits));
    assert(fraction(bits) * pow2(0) == fraction(bits)) by (nonlinear_arith)
        requires
            pow2(0) == 1,
    ;
    assert(0 <= significand(bits) * pow2(scale(bits))) by (nonlinear_arith)
        requires
            0 <= significand(bits),
            0 <= pow2(scale(bits)),
    ;
}

/// Powers of two grow.
pub proof fn lemma_pow2_grows(a: nat, b: nat)
    requires
        a <= b,
    ensures
        pow2(a) <= pow2(b),
{
    if a < b {
        lemma_pow2_strictly_increases(a, b);
    }
}

/// Of bits without a sign, larger ones stand for a larger number.
pub proof fn lemma_distance_grows(a: u64, b: u64)
    requires
        a < b < 0x8000_0000_0000_0000,
    ensures
        distance(a) < distance(b),
{
    lemma_distance(a);
    lemma_distance(b);
    let p = pow2(scale(a)) as int;
    let q = pow2(scale(b)) as int;
    let m = significand(a);
    let n = significand(b);
    lemma_pow2_pos(scale(a));
    assert(exponent(a) == a / 0x10_0000_0000_0000 && exponent(b) == b / 0x10_0000_0000_0000);
    if scale(a) == scale(b) {
        assert(m * p < n * p) by (nonlinear_arith)
            requires
                m < n,
                p > 0,
        ;
    } else {
        lemma_pow2_grows(scale(a) + 1, scale(b));
        lemma_pow2_unfold(scale(a) + 1);
        assert(m * p < n * q) by (nonlinear_arith)
            requires
                m < 0x20_0000_0000_0000,
                n >= 0x10_0000_0000_0000,
                q >= 2 * p,
                p > 0,
        ;
    }
}

/// The sign does not matter to the distance from zero.
pub proof fn lemma_unsigned(bits: u64)
    ensures
        distance(bits) == distance((bits % 0x8000_0000_0000_0000) as u64),
        is_nan(bits) == is_nan((bits % 0x8000_0000_0000_0000) as u64),
{
    let plain = (bits % 0x8000_0000_0000_0000) as u64;
    assert(exponent(bits) == exponent(plain));
    assert(fraction(bits) == fraction(plain));
}

/// Whether the number is more than the one at distance `size` from zero, above it or
/// below it.
pub(crate) fn is_above(bits: u64, below_zero: bool, size: u64) -> (r: bool)
    requires
        size < 0x8000_0000_0000_0000,
    ensures
        r == (!is_nan(bits) && number(bits) > (if below_zero {
            -distance(size)
        } else {
            distance(size)
        })),
{
    let plain: u64 = bits % 0x8000_0000_0000_0000;
    let nan = plain > 0x7ff0_0000_0000_0000;
    proof {
        lemma_unsigned(bits);
        lemma_distance(plain);
        lemma_distance(size);
        lemma_distance(0);
        if plain < size {
            lemma_distance_grows(plain, size);
        } else if size < plain {
            lemma_distance_grows(size, plain);
        }
        if 0 < plain {
            lemma_distance_grows(0, plain);
        }
        if 0 < size {
            lemma_distance_grows(0, size);
        }
        assert(nan == is_nan(bits));
    }
    if nan {
        false
    } else if bits < 0x8000_0000_0000_0000 {
        if below_zero {
            plain > 0 || size > 0
        } else {
            plain > size
        }
    } else {
        below_zero && plain < size
    }
}

/// Whether a number is at most as far from zero as the bits `size` are.
pub(crate) fn is_at_most(bits: u64, size: u64) -> (r: bool)
    requires
        size < 0x7ff0_0000_0000_0000,
    ensures
        r == (!is_nan(bits) && distance(bits) <= distance(size)),
{
    let plain: u64 = bits % 0x8000_0000_0000_0000;
    proof {
        lemma_unsigned(bits);
        if plain < size {
            lemma_distance_grows(plain, size);
        } else if size < plain {
            lemma_distance_grows(size, plain);
        }
    }
    plain <= size
}

/// A common factor does not matter to the rounding of a quotient.
proof fn lemma_nearest_scales(x: nat, g: nat, power: nat)
    requires
        g > 0,
        power > 0,
    ensures
        nearest(x * power, g * power) == nearest(x, g),
{
    let q = x as int / g as int;
    let r = x as int % g as int;
    lemma_fundamental_div_mod(x as int, g as int);
    assert(g * power > 0) by (nonlinear_arith)
        requires
            g > 0,
            power > 0,
    ;
    assert(x * power == q * (g * power) + r * power) by (nonlinear_arith)
        requires
            x == g * q + r,
    ;
    assert(0 <= r * power < g * power) by (nonlinear_arith)
        requires
            0 <= r < g,
            power > 0,
    ;
    lemma_fundamental_div_mod_converse(
        (x * power) as int,
        (g * power) as int,
        q,
        r * power,
    );
    assert((2 * (r * power) < g * power) == (2 * r < g)) by (nonlinear_arith)
        requires
            power > 0,
    ;
    assert((2 * (r * power) > g * power) == (2 * r > g)) by (nonlinear_arith)
        requires
            power > 0,
    ;
}

/// Doubles are spaced in proportion to their size, but for the smallest.
proof fn lemma_spacing_scales(x: nat, t: nat)
    requires
        x >= 0x10_0000_0000_0000,
    ensures
        spacing((x * pow2(t)) as nat) == spacing(x) * pow2(t),
    decreases t,
{
    let power = pow2(t);
    if t == 0 {
        lemma2_to64();
        assert(x * power == x) by (nonlinear_arith)
            requires
                power == 1,
        ;
        assert(spacing(x) * power == spacing(x)) by (nonlinear_arith)
            requires
                power == 1,
        ;
    } else {
        let fewer = pow2((t - 1) as nat);
        lemma_pow2_unfold(t);
        lemma_pow2_pos((t - 1) as nat);
        lemma_spacing_scales(x, (t - 1) as nat);
        assert(x * power == 2 * (x * fewer)) by (nonlinear_arith)
            requires
                power == 2 * fewer,
        ;
        assert(x * fewer >= 0x10_0000_0000_0000) by (nonlinear_arith)
            requires
                x >= 0x10_0000_0000_0000,
                fewer >= 1,
        ;
        assert(spacing(x) * power == 2 * (spacing(x) * fewer)) by (nonlinear_arith)
            requires
                power == 2 * fewer,
        ;
    }
}

proof fn lemma_spacing_is_positive(x: nat)
    ensures
        spacing(x) > 0,
    decreases x,
{
    if x >= 0x20_0000_0000_0000 {
        lemma_spacing_is_positive(x / 2);
    }
}

/// Rounding is in proportion to the size, but for the smallest numbers.
proof fn lemma_rounded_scales(x: nat, t: nat)
    requires
        x >= 0x10_0000_0000_0000,
    ensures
        rounded((x * pow2(t)) as nat) == rounded(x) * pow2(t),
{
    let power = pow2(t);
    let g = spacing(x);
    lemma_pow2_pos(t);
    lemma_spacing_is_positive(x);
    lemma_spacing_scales(x, t);
    lemma_nearest_scales(x, g, power);
    let n = nearest(x, g);
    assert((g * power) * n == (g * n) * power) by (nonlinear_arith);
}

/// Half of an even multiple is exact.
proof fn lemma_half(x: nat)
    ensures
        nearest(2 * x, 2) == x,
{
}

/// The bits of `sig` times two to the power of `t`.
fn compose(sig: u64, t: u32) -> (r: u64)
    requires
        sig <= 0x20_0000_0000_0000,
        t <= 1100,
        t > 0 ==> sig >= 0x10_0000_0000_0000,
    ensures
        r < 0x7ff0_0000_0000_0000,
        distance(r) == sig * pow2(t as nat),
        0x10_0000_0000_0000 <= sig < 0x20_0000_0000_0000 ==> scale(r) == t,
{
    proof {
        lemma2_to64();
        lemma_pow2_unfold((t + 1) as nat);
        assert(0x20_0000_0000_0000 * pow2(t as nat) == 0x10_0000_0000_0000 * (2 * pow2(t as nat)))
            by (nonlinear_arith);
        assert(sig * pow2(0) == sig) by (nonlinear_arith)
            requires
                pow2(0) == 1,
        ;
    }
    if sig == 0x20_0000_0000_0000 {
        let r: u64 = (t as u64 + 2) * 0x10_0000_0000_0000;
        assert(exponent(r) == t + 2 && fraction(r) == 0);
        r
    } else if sig >= 0x10_0000_0000_0000 {
        let r: u64 = (t as u64 + 1) * 0x10_0000_0000_0000 + (sig - 0x10_0000_0000_0000);
        assert(exponent(r) == t + 1 && fraction(r) == sig - 0x10_0000_0000_0000);
        r
    } else {
        assert(exponent(sig) == 0 && fraction(sig) == sig);
        sig
    }
}

/// Half of `s` times two to the power of `t`, as doubles give it.
fn half(s: u64, t: u32) -> (r: u64)
    requires
        s < 0x80_0000_0000_0000,
        t <= 1099,
        t > 0 ==> s >= 0x10_0000_0000_0000,
    ensures
        r < 0x7ff0_0000_0000_0000,
        distance(r) == nearest(rounded((s * pow2(t as nat)) as nat), 2),
        s < 0x40_0000_0000_0000 && (t == 0 || s >= 0x20_0000_0000_0000) ==> distance(r) == nearest(
            s as nat,
            2,
        ) * pow2(t as nat),
        s >= 0x40_0000_0000_0000 ==> distance(r) == nearest(s as nat, 4) * pow2((t + 1) as nat),
        s < 0x20_0000_0000_0000 && t > 0 ==> scale(r) == t - 1 && distance(r) == s * pow2(
            (t - 1) as nat,
        ),
{
    let ghost power = pow2(t as nat);
    let ghost x = (s * power) as nat;
    proof {
        lemma2_to64();
        lemma_pow2_pos(t as nat);
        assert(s * power >= 0) by (nonlinear_arith)
            requires
                s >= 0,
                power >= 0,
        ;
        reveal_with_fuel(spacing, 3);
        if t == 0 {
            assert(s * power == s) by (nonlinear_arith)
                requires
                    power == 1,
            ;
            assert(rounded(s as nat) * power == rounded(s as nat)) by (nonlinear_arith)
                requires
                    power == 1,
            ;
        } else {
            lemma_rounded_scales(s as nat, t as nat);
        }
        assert(rounded(x) == rounded(s as nat) * power);
    }
    if s < 0x20_0000_0000_0000 {
        assert(rounded(s as nat) == s) by {
            let g = spacing(s as nat);
            let n = nearest(s as nat, 1);
            assert(g == 1 && n == s);
            assert(g * n == n) by (nonlinear_arith)
                requires
                    g == 1,
            ;
        }
        if t == 0 {
            let n: u64 = s / 2 + if s % 2 == 1 {
                (s / 2) % 2
            } else {
                0
            };
            assert(n == nearest(s as nat, 2));
            proof {
                assert(n * power == n) by (nonlinear_arith)
                    requires
                        power == 1,
                ;
            }
            compose(n, 0)
        } else {
            proof {
                let fewer = pow2((t - 1) as nat);
                lemma_pow2_unfold(t as nat);
                assert(s * power == 2 * (s * fewer)) by (nonlinear_arith)
                    requires
                        power == 2 * fewer,
                ;
                assert(s * fewer >= 0) by (nonlinear_arith)
                    requires
                        s >= 0,
                        fewer >= 0,
                ;
                lemma_half((s * fewer) as nat);
            }
            compose(s, t - 1)
        }
    } else if s < 0x40_0000_0000_0000 {
        let n: u64 = s / 2 + if s % 2 == 1 {
            (s / 2) % 2
        } else {
            0
        };
        proof {
            assert(spacing(s as nat) == 2);
            assert(n == nearest(s as nat, 2));
            assert((2 * n) * power == 2 * (n * power)) by (nonlinear_arith);
            assert(n * power >= 0) by (nonlinear_arith)
                requires
                    n >= 0,
                    power >= 0,
            ;
            lemma_half((n * power) as nat);
        }
        compose(n, t)
    } else {
        let rest: u64 = s % 4;
        let n: u64 = s / 4 + if rest == 3 {
            1
        } else if rest == 2 {
            (s / 4) % 2
        } else {
            0
        };
        proof {
            assert(spacing(s as nat) == 4);
            assert(n == nearest(s as nat, 4));
            let more = pow2((t + 1) as nat);
            lemma_pow2_unfold((t + 1) as nat);
            assert((4 * n) * power == 2 * (n * more)) by (nonlinear_arith)
                requires
                    more == 2 * power,
            ;
            assert(n * more >= 0) by (nonlinear_arith)
                requires
                    n >= 0,
                    more >= 0,
            ;
            lemma_half((n * more) as nat);
        }
        compose(n, t + 1)
    }
}

/// Whether the exponents of two numbers without a sign are so near one another that their
/// sum needs few digits, or the first is zero.
pub(crate) closed spec fn are_near(near: u64, far: u64) -> bool {
    near <= far && (near == 0 || scale(far) <= scale(near) + 1)
}

/// Of bits without a sign, larger ones have no smaller exponent.
proof fn lemma_scale_grows(a: u64, b: u64)
    requires
        a <= b < 0x8000_0000_0000_0000,
    ensures
        scale(a) <= scale(b),
{
    assert(exponent(a) == a / 0x10_0000_0000_0000 && exponent(b) == b / 0x10_0000_0000_0000);
}

/// Bits without a sign are told by the number that they stand for.
proof fn lemma_ordered(a: u64, b: u64)
    requires
        a < 0x8000_0000_0000_0000,
        b < 0x8000_0000_0000_0000,
        distance(a) <= distance(b),
    ensures
        a <= b,
{
    if b < a {
        lemma_distance_grows(b, a);
    }
}

proof fn lemma_scaled(a: int, b: int, power: int)
    requires
        a <= b,
        power >= 0,
    ensures
        a * power <= b * power,
{
    assert(a * power <= b * power) by (nonlinear_arith)
        requires
            a <= b,
            power >= 0,
    ;
}

/// Half of the sum of two numbers without a sign, as doubles give it.
pub(crate) fn half_of_sum(near: u64, far: u64) -> (r: u64)
    requires
        far <= 0x4066_8000_0000_0000,
        are_near(near, far),
    ensures
        near <= r <= far,
        are_near(near, r),
        are_near(r, far),
        distance(r) == middle(distance(near), distance(far)),
{
    let e: u64 = far / 0x10_0000_0000_0000;
    let f: u64 = far % 0x10_0000_0000_0000;
    let d: u64 = near / 0x10_0000_0000_0000;
    let g: u64 = near % 0x10_0000_0000_0000;
    proof {
        lemma_distance(near);
        lemma_distance(far);
        assert(e == exponent(far) && f == fraction(far));
        assert(d == exponent(near) && g == fraction(near));
    }
    let far_sig: u64 = if e == 0 {
        f
    } else {
        0x10_0000_0000_0000 + f
    };
    let near_sig: u64 = if d == 0 {
        g
    } else {
        0x10_0000_0000_0000 + g
    };
    let far_scale: u32 = if e == 0 {
        0
    } else {
        (e - 1) as u32
    };
    let near_scale: u32 = if d == 0 {
        0
    } else {
        (d - 1) as u32
    };
    let ghost power = pow2(near_scale as nat) as int;
    let ghost more = pow2(far_scale as nat) as int;
    proof {
        lemma_pow2_pos(near_scale as nat);
        lemma_pow2_pos(far_scale as nat);
        lemma_scale_grows(near, far);
    }
    let r;
    if near == 0 {
        r = half(far_sig, far_scale);
        proof {
            if far_scale == 0 {
                lemma_scaled(nearest(far_sig as nat, 2) as int, far_sig as int, more);
            } else {
                let fewer = pow2((far_scale - 1) as nat) as int;
                lemma_pow2_unfold(far_scale as nat);
                lemma_pow2_pos((far_scale - 1) as nat);
                assert(far_sig * fewer <= far_sig * more) by (nonlinear_arith)
                    requires
                        far_sig >= 0,
                        more == 2 * fewer,
                        fewer >= 0,
                ;
            }
        }
    } else if far_scale == near_scale {
        let sum: u64 = near_sig + far_sig;
        r = half(sum, near_scale);
        proof {
            assert(sum * power == near_sig * power + far_sig * power) by (nonlinear_arith)
                requires
                    sum == near_sig + far_sig,
            ;
            assert(near_sig <= far_sig);
            let n = nearest(sum as nat, 2) as int;
            lemma_scaled(near_sig as int, n, power);
            lemma_scaled(n, far_sig as int, power);
        }
    } else {
        let sum: u64 = near_sig + 2 * far_sig;
        r = half(sum, near_scale);
        proof {
            lemma_pow2_unfold(far_scale as nat);
            assert(sum * power == near_sig * power + far_sig * more) by (nonlinear_arith)
                requires
                    sum == near_sig + 2 * far_sig,
                    more == 2 * power,
            ;
            assert(far_sig * more == (2 * far_sig) * power) by (nonlinear_arith)
                requires
                    more == 2 * power,
            ;
            if sum < 0x40_0000_0000_0000 {
                let n = nearest(sum as nat, 2) as int;
                lemma_scaled(near_sig as int, n, power);
                lemma_scaled(n, 2 * far_sig, power);
            } else {
                let n = nearest(sum as nat, 4) as int;
                assert(n * more == (2 * n) * power) by (nonlinear_arith)
                    requires
                        more == 2 * power,
                ;
                lemma_scaled(near_sig as int, 2 * n, power);
                lemma_scaled(n, far_sig as int, more);
            }
        }
    }
    proof {
        lemma_ordered(near, r);
        lemma_ordered(r, far);
        lemma_scale_grows(near, r);
        lemma_scale_grows(r, far);
    }
    r
}

/// The bits of 90.
pub const NINETY: u64 = 0x4056_8000_0000_0000;

/// The bits of 180.
pub const ONE_HUNDRED_EIGHTY: u64 = 0x4066_8000_0000_0000;

/// What the two constants stand for.
pub proof fn lemma_limits()
    ensures
        distance(NINETY) == 90 * one(),
        distance(ONE_HUNDRED_EIGHTY) == 180 * one(),
        one() > 0,
{
    lemma2_to64();
    lemma2_to64_rest();
    lemma_pow2_pos(1074);
    lemma_pow2_adds(46, 1028);
    lemma_pow2_adds(45, 1029);
    assert(exponent(NINETY) == 1029 && fraction(NINETY) == 0x6_8000_0000_0000);
    assert(exponent(ONE_HUNDRED_EIGHTY) == 1030 && fraction(ONE_HUNDRED_EIGHTY)
        == 0x6_8000_0000_0000);
}

/// Whether the number lies between `-limit` and `limit`, where `limit` is 90 or 180.
pub fn lies_within(bits: u64, limit: u64) -> (r: bool)
    requires
        limit == 90 || limit == 180,
    ensures
        r == is_within(bits, limit as int),
{
    proof {
        lemma_limits();
        lemma_distance(bits);
        assert(-limit * one() == -(limit * one())) by (nonlinear_arith);
    }
    if limit == 90 {
        is_at_most(bits, NINETY)
    } else {
        is_at_most(bits, ONE_HUNDRED_EIGHTY)
    }
}

/// A number that is a multiple of a large enough power of two is a double.
pub proof fn lemma_is_double(x: nat, e: nat)
    requires
        x % pow2(e) == 0,
        x < pow2(53 + e),
    ensures
        rounded(x) == x,
{
    let g = spacing(x);
    lemma_spacing_divides(x, e);
    lemma_spacing_is_positive(x);
    lemma_pow2_pos(e);
    let c = pow2(e) as int / g as int;
    lemma_fundamental_div_mod(pow2(e) as int, g as int);
    lemma_fundamental_div_mod(x as int, pow2(e) as int);
    let d = x as int / pow2(e) as int;
    assert(x == (d * c) * g + 0) by (nonlinear_arith)
        requires
            x == pow2(e) * d,
            pow2(e) == g * c,
    ;
    lemma_fundamental_div_mod_converse(x as int, g as int, d * c, 0);
    let n = nearest(x, g);
    assert(g * n == x) by (nonlinear_arith)
        requires
            n == d * c,
            x == (d * c) * g,
    ;
}

proof fn lemma_spacing_divides(x: nat, e: nat)
    requires
        x % pow2(e) == 0,
        x < pow2(53 + e),
    ensures
        pow2(e) as int % spacing(x) as int == 0,
    decreases e,
{
    lemma2_to64();
    lemma2_to64_rest();
    if x >= 0x20_0000_0000_0000 {
        let fewer = (e - 1) as nat;
        assert(e > 0) by {
            if e == 0 {
                assert(pow2(53 + e) == 0x20_0000_0000_0000);
            }
        }
        lemma_pow2_unfold(e);
        lemma_pow2_unfold(53 + e);
        lemma_pow2_pos(fewer);
        let d = x as int / pow2(e) as int;
        lemma_fundamental_div_mod(x as int, pow2(e) as int);
        assert(x == 2 * (pow2(fewer) * d)) by (nonlinear_arith)
            requires
                x == pow2(e) * d,
                pow2(e) == 2 * pow2(fewer),
        ;
        let half = x / 2;
        assert(half == d * pow2(fewer) + 0) by (nonlinear_arith)
            requires
                half == pow2(fewer) * d,
        ;
        lemma_fundamental_div_mod_converse(half as int, pow2(fewer) as int, d, 0);
        lemma_spacing_divides(half, fewer);
        lemma_spacing_is_positive(half);
        let g = spacing(half) as int;
        let c = pow2(fewer) as int / g;
        lemma_fundamental_div_mod(pow2(fewer) as int, g);
        assert(pow2(e) == c * (2 * g) + 0) by (nonlinear_arith)
            requires
                pow2(e) == 2 * pow2(fewer),
                pow2(fewer) == g * c,
        ;
        lemma_fundamental_div_mod_converse(pow2(e) as int, 2 * g, c, 0);
    }
}

/// No number is nearer to zero than zero.
pub(crate) proof fn lemma_distance_is_positive(bits: u64)
    ensures
        distance(bits) >= 0,
{
    lemma_distance(bits);
}

/// The middle of a range around zero is zero, which is near to every number.
pub(crate) proof fn lemma_zero(far: u64)
    ensures
        middle(-distance(far), distance(far)) == 0,
        distance(0) == 0,
        are_near(0, far),
{
    lemma_distance(0);
    assert(exponent(0) == 0 && fraction(0) == 0);
    let n = nearest(0, 1);
    assert(spacing(0) == 1 && n == 0);
    assert(spacing(0) * n == 0) by (nonlinear_arith)
        requires
            n == 0,
    ;
}

/// The middle of numbers below zero mirrors that of the numbers above it.
pub(crate) proof fn lemma_middle_of_negatives(a: int, b: int)
    requires
        a >= 0,
        b >= 0,
    ensures
        middle(-b, -a) == -middle(a, b),
{
    if a + b == 0 {
        assert(rounded(0) == 0) by {
            let n = nearest(0, 1);
            assert(spacing(0) == 1 && n == 0);
            assert(spacing(0) * n == 0) by (nonlinear_arith)
                requires
                    n == 0,
            ;
        }
    }
}

/// Doubles are told by their bits: those of zero stand for zero, those of one for one, and
/// the sign bit turns a number into its opposite. The smallest ones count the units, and with
/// each next exponent the number doubles. What comes behind the infinities, and only that, is
/// no number.
pub proof fn doubles_are_told_by_their_bits(bits: u64)
    ensures
        number(0) == 0,
        number(0x3ff0_0000_0000_0000) == one(),
        one() == pow2(1074),
        bits < 0x8000_0000_0000_0000 ==> number((bits + 0x8000_0000_0000_0000) as u64) == -number(
            bits,
        ),
        bits < 0x0020_0000_0000_0000 ==> number(bits) == bits,
        0x0010_0000_0000_0000 <= bits < 0x7fe0_0000_0000_0000 ==> number(
            (bits + 0x0010_0000_0000_0000) as u64,
        ) == 2 * number(bits),
        is_nan(bits) <==> 0x7ff0_0000_0000_0000 < bits < 0x8000_0000_0000_0000 || bits
            > 0xfff0_0000_0000_0000,
{
    lemma2_to64();
    lemma2_to64_rest();
    assert(exponent(0x3ff0_0000_0000_0000) == 1023);
    assert(fraction(0x3ff0_0000_0000_0000) == 0);
    lemma_pow2_adds(52, 1022);
    assert(pow2(52) == 0x10_0000_0000_0000);
    if bits < 0x0020_0000_0000_0000 && exponent(bits) != 0 {
        assert(exponent(bits) == 1);
        assert((0x10_0000_0000_0000 + fraction(bits)) * pow2(0) == 0x10_0000_0000_0000 + fraction(
            bits,
        )) by (nonlinear_arith)
            requires
                pow2(0) == 1,
        ;
    }
    if 0x0010_0000_0000_0000 <= bits < 0x7fe0_0000_0000_0000 {
        let next = (bits + 0x0010_0000_0000_0000) as u64;
        let e = (exponent(bits) - 1) as nat;
        assert(exponent(next) == exponent(bits) + 1);
        assert(fraction(next) == fraction(bits));
        lemma_pow2_unfold(e + 1);
        let s = 0x10_0000_0000_0000 + fraction(bits);
        assert(s * (2 * pow2(e)) == 2 * (s * pow2(e))) by (nonlinear_arith);
    }
}

/// Whether a number lies within a limit is told by its value.
pub proof fn limits_are_told(bits: u64, limit: u64, r: bool)
    requires
        call_requires(lies_within, (bits, limit)),
        call_ensures(lies_within, (bits, limit), r),
    ensures
        r == (!is_nan(bits) && number(bits) >= -(limit * one()) && number(bits) <= limit * one()),
{
    assert((-(limit as int)) * one() == -(limit * one())) by (nonlinear_arith);
}

}
