//! Places in a track, in seconds as IEEE singles by bit pattern, and what
//! seeking makes of them.

use vstd::prelude::*;
use vstd::arithmetic::div_mod::{
    lemma_fundamental_div_mod, lemma_fundamental_div_mod_converse, lemma_mod_bound,
};
use vstd::arithmetic::power2::{
    lemma2_to64, lemma2_to64_rest, lemma_pow2_adds, lemma_pow2_pos, lemma_pow2_strictly_increases,
    lemma_pow2_unfold, pow2,
};
use crate::single::{
    distance, excess, exponent, fraction, is_nearest, lemma_absorbed, lemma_pattern, lemma_rounded_bounds,
    lemma_rounded_scales, lemma_small, magnitude, negative, packed, pattern, power_of_two, rounded,
    significant, steps, value,
};

verus! {

/// How far one press of rewind or fast-forward moves, in seconds.
pub const SEEK_STEP: i128 = 10;

/// Nanoseconds in a second.
pub const SECOND: u128 = 1_000_000_000;

/// The single is a place that a clock of 64-bit seconds can show: it is not below
/// zero, and less than two to the power of 65.
pub open spec fn is_position(bits: u32) -> bool {
    bits < 0x6000_0000
}

/// Two to the power of 64, as a single: the first number of seconds that no span has.
pub const SPAN_END: u32 = 0x5f80_0000;

/// The single is not below zero, and less than two to the power of 64.
pub open spec fn is_span(bits: u32) -> bool {
    bits < SPAN_END
}

/// The sum, as a single, of a place and a whole number of seconds.
pub open spec fn moved_by(bits: u32, whole: int) -> u32 {
    pattern(rounded((value(bits) + steps(whole)) as nat) as nat) as u32
}

/// Where fast-forward leads.
pub open spec fn later(bits: u32) -> u32 {
    moved_by(bits, SEEK_STEP as int)
}

/// Where rewind leads: not to before the start.
pub open spec fn earlier(bits: u32) -> u32 {
    if value(bits) <= steps(SEEK_STEP as int) {
        0
    } else {
        moved_by(bits, -SEEK_STEP)
    }
}

/// A place in whole nanoseconds: the nearest number, and the even one of two
/// that are as near.
pub open spec fn nanos(bits: u32) -> int {
    let u = pow2(149) as int;
    let q = value(bits) * SECOND / u;
    let r = value(bits) * SECOND % u;
    if 2 * r > u || (2 * r == u && q % 2 == 1) {
        q + 1
    } else {
        q
    }
}

/// The size of a number follows from the number of digits that are dropped.
proof fn lemma_excess_size(n: nat)
    ensures
        n < pow2(24 + excess(n)),
        excess(n) > 0 ==> n >= pow2(23 + excess(n)),
    decreases n,
{
    lemma2_to64();
    if n >= 0x100_0000 {
        lemma_excess_size(n / 2);
        lemma_pow2_unfold(24 + excess(n));
        lemma_pow2_unfold(23 + excess(n));
    }
}

/// A number of steps that is a single is the value of its pattern.
proof fn lemma_value_of_pattern(v: nat)
    requires
        rounded(v) == v,
        excess(v) <= 253,
    ensures
        0 <= pattern(v) < 0x7f80_0000,
        value(pattern(v) as u32) == v,
{
    let k = excess(v);
    let h = pow2(k) as int;
    let t = v as int / h;
    let r = v as int % h;
    lemma2_to64();
    lemma_pow2_pos(k);
    lemma_excess_size(v);
    lemma_fundamental_div_mod(v as int, h);
    lemma_mod_bound(v as int, h);
    lemma_pow2_adds(23, k);
    lemma_pow2_adds(24, k);
    assert(t * h == h * t && (t + 1) * h == h * t + h) by (nonlinear_arith);
    assert(r == 0);
    assert(0 <= t < 0x100_0000) by (nonlinear_arith)
        requires
            v == h * t,
            0 <= v < 0x100_0000 * h,
            h > 0,
    ;
    if k > 0 {
        assert(t >= 0x80_0000) by (nonlinear_arith)
            requires
                v == h * t,
                v >= 0x80_0000 * h,
                h > 0,
        ;
    }
    let bits = pattern(v) as u32;
    assert(bits == k * 0x80_0000 + t);
    if t < 0x80_0000 {
        assert(exponent(bits) == 0);
        assert(fraction(bits) == t);
        assert(h == 1);
        assert(h * t == t) by (nonlinear_arith)
            requires
                h == 1,
        ;
    } else {
        assert(exponent(bits) == k + 1);
        assert(fraction(bits) == t - 0x80_0000);
        assert(magnitude(bits) == t * h);
    }
}

/// A number of up to twenty-four digits is its own nearest single.
proof fn lemma_short_is_kept(n: nat)
    requires
        n <= 0x100_0000,
    ensures
        rounded(n) == n,
{
    lemma2_to64();
    if n == 0x100_0000 {
        assert(excess(0x80_0000) == 0);
        assert(excess(n) == 1 + excess(n / 2));
        assert(pow2(excess(n)) == 2);
        assert(n as int / 2 == 0x80_0000 && n as int % 2 == 0);
    } else {
        assert(excess(n) == 0);
        assert(n as int / 1 == n && n as int % 1 == 0);
        assert(rounded(n) == n * 1);
    }
}

/// The nearest single is a single.
proof fn lemma_rounded_is_single(n: nat)
    ensures
        rounded(n) >= 0,
        rounded(rounded(n) as nat) == rounded(n),
{
    let k = excess(n);
    let h = pow2(k) as int;
    let q = n as int / h;
    lemma2_to64();
    lemma_pow2_pos(k);
    lemma_excess_size(n);
    lemma_pow2_adds(24, k);
    lemma_fundamental_div_mod(n as int, h);
    lemma_mod_bound(n as int, h);
    let r = n as int % h;
    assert(0 <= q < 0x100_0000) by (nonlinear_arith)
        requires
            n == h * q + r,
            0 <= r < h,
            0 <= n < 0x100_0000 * h,
    ;
    lemma_short_is_kept(q as nat);
    lemma_short_is_kept((q + 1) as nat);
    lemma_rounded_scales(q as nat, k);
    lemma_rounded_scales((q + 1) as nat, k);
    assert(q * h >= 0 && (q + 1) * h >= 0) by (nonlinear_arith)
        requires
            q >= 0,
            h > 0,
    ;
}

/// A number that is not large drops few digits.
proof fn lemma_excess_bound(n: nat, size: nat)
    requires
        n < pow2(size),
        size >= 24,
    ensures
        excess(n) + 23 <= size,
{
    lemma_excess_size(n);
    if excess(n) > 0 && 23 + excess(n) > size {
        lemma_pow2_strictly_increases(size, 23 + excess(n));
    }
}

/// Places are not large.
proof fn lemma_position_size(place: u32)
    requires
        is_position(place),
    ensures
        0 <= value(place) < pow2(214),
        0 < steps(SEEK_STEP as int) < pow2(214),
{
    lemma2_to64();
    lemma2_to64_rest();
    lemma_pow2_pos(149);
    lemma_pow2_adds(4, 149);
    lemma_pow2_strictly_increases(153, 214);
    lemma_pow2_adds(24, 190);
    let e = exponent(place);
    if e == 0 {
        lemma_pow2_strictly_increases(24, 214);
    } else {
        let m = 0x80_0000 + fraction(place);
        let x = pow2((e - 1) as nat) as int;
        lemma_pow2_pos((e - 1) as nat);
        assert(e <= 191);
        if e < 191 {
            lemma_pow2_strictly_increases((e - 1) as nat, 190);
        }
        assert(0 <= m * x < 0x100_0000 * pow2(190)) by (nonlinear_arith)
            requires
                0 <= m < 0x100_0000,
                0 < x <= pow2(190),
        ;
    }
}

/// A single that is not below zero is its own nearest single, and has the
/// pattern of its value.
proof fn lemma_single_is_kept(bits: u32)
    requires
        bits < 0x7f80_0000,
    ensures
        value(bits) >= 0,
        rounded(value(bits) as nat) == value(bits),
        pattern(value(bits) as nat) == bits,
        excess(value(bits) as nat) <= 253,
{
    let e = exponent(bits);
    let f = fraction(bits);
    lemma2_to64();
    if e == 0 {
        assert(excess(f as nat) == 0);
        assert(f / 1 == f && f % 1 == 0);
        assert(f * 1 == f);
    } else {
        let m = 0x80_0000 + f;
        let k = (e - 1) as nat;
        assert(excess(m as nat) == 0);
        assert(m / 1 == m && m % 1 == 0);
        assert(rounded(m as nat) == m * 1);
        lemma_rounded_scales(m as nat, k);
        lemma_pattern(m, k);
        let v = (m * pow2(k)) as nat;
        if excess(v) > 253 {
            lemma_excess_size(v);
            lemma_pow2_adds(24, k);
            lemma_pow2_pos(k);
            assert(m * pow2(k) < 0x100_0000 * pow2(k)) by (nonlinear_arith)
                requires
                    m < 0x100_0000,
                    pow2(k) > 0,
            ;
            if 24 + k < 23 + excess(v) {
                lemma_pow2_strictly_increases(24 + k, 23 + excess(v));
            }
        }
    }
}

/// The pattern of the nearest single to `x` units of two to the power of `unit` steps.
fn from_units(x: u128, unit: u32) -> (bits: u32)
    requires
        0 < x < 0x1_0000_0000_0000_0000_0000_0000,
        23 <= unit <= 149,
    ensures
        bits == pattern(rounded((x * pow2(unit as nat)) as nat) as nat),
        bits < 0x7f80_0000,
        value(bits) == rounded((x * pow2(unit as nat)) as nat),
{
    let (kept, cut, _worth): (u128, u32, u128) = significant(x);
    proof {
        lemma_rounded_scales(x as nat, unit as nat);
        lemma_pow2_adds(cut as nat, unit as nat);
        let a = pow2(cut as nat) as int;
        let b = pow2(unit as nat) as int;
        assert((kept * a) * b == kept * (a * b)) by (nonlinear_arith);
    }
    packed(kept, cut + unit)
}

/// The sum, as a single, of a place that is not close to zero and the step,
/// onwards or back.
fn stepped(bits: u32, back: bool) -> (there: u32)
    requires
        is_position(bits),
        exponent(bits) >= 90,
        back ==> value(bits) > steps(SEEK_STEP as int),
    ensures
        there == moved_by(
            bits,
            if back {
                -SEEK_STEP
            } else {
                SEEK_STEP as int
            },
        ),
        there < 0x7f80_0000,
        value(there) == rounded(
            (value(bits) + steps(
                if back {
                    -SEEK_STEP
                } else {
                    SEEK_STEP as int
                },
            )) as nat,
        ),
{
    let e: u32 = bits / 0x80_0000;
    let m: i128 = 0x80_0000 + (bits % 0x80_0000) as i128;
    let step: i128 = if back {
        -SEEK_STEP
    } else {
        SEEK_STEP
    };
    let ghost part = pow2((e - 1) as nat) as int;
    let ghost u = pow2(149) as int;
    proof {
        assert(exponent(bits) == e);
        lemma2_to64();
        lemma2_to64_rest();
        lemma_pow2_pos((e - 1) as nat);
        lemma_pow2_pos(149);
        assert((-10) * u == -(10 * u)) by (nonlinear_arith);
    }
    if e < 150 {
        let k: i128 = power_of_two(150 - e);
        let x: i128 = m + step * k;
        proof {
            lemma_pow2_adds((e - 1) as nat, (150 - e) as nat);
            assert(m * part + step * (part * k) == x * part) by (nonlinear_arith)
                requires
                    x == m + step * k,
            ;
            assert(x > 0) by (nonlinear_arith)
                requires
                    x * part > 0,
                    part > 0,
            ;
        }
        from_units(x as u128, e - 1)
    } else {
        let h: i128 = power_of_two(e - 150);
        proof {
            assert(0 <= m * h <= 0x100_0000 * 0x1_0000_0000_0000_0000) by (nonlinear_arith)
                requires
                    0 <= m <= 0x100_0000,
                    0 <= h <= 0x1_0000_0000_0000_0000,
            ;
        }
        let x: i128 = m * h + step;
        proof {
            lemma_pow2_adds((e - 150) as nat, 149);
            assert(m * (h * u) + step * u == x * u) by (nonlinear_arith)
                requires
                    x == m * h + step,
            ;
            assert(x > 0) by (nonlinear_arith)
                requires
                    x * u > 0,
                    u > 0,
            ;
        }
        from_units(x as u128, 149)
    }
}

/// The place ten seconds on.
pub fn ten_later(bits: u32) -> (there: u32)
    requires
        is_position(bits),
    ensures
        there == later(bits),
        there < 0x7f80_0000,
        value(there) == rounded((value(bits) + steps(SEEK_STEP as int)) as nat),
{
    if bits / 0x80_0000 < 90 {
        proof {
            lemma2_to64();
            lemma_absorbed(bits, 10);
            let x = 10485760int;
            lemma_pow2_adds(20, 129);
            assert(10 * (0x10_0000 * pow2(129)) == x * pow2(129)) by (nonlinear_arith)
                requires
                    x == 10485760,
            ;
            lemma_pattern(x, 129);
            assert(exponent(0x4120_0000u32) == 130 && fraction(0x4120_0000u32) == 0x20_0000);
        }
        0x4120_0000
    } else {
        stepped(bits, false)
    }
}

/// The place ten seconds back, or the start.
pub fn ten_earlier(bits: u32) -> (there: u32)
    requires
        is_position(bits),
    ensures
        there == earlier(bits),
        there < 0x7f80_0000,
{
    proof {
        lemma_ten(bits);
    }
    if bits <= 0x4120_0000 {
        0
    } else {
        stepped(bits, true)
    }
}

/// Singles that are not below zero are ordered as their patterns, here about ten.
proof fn lemma_ten(bits: u32)
    requires
        bits < 0x7f80_0000,
    ensures
        value(bits) <= steps(SEEK_STEP as int) <==> bits <= 0x4120_0000,
        bits > 0x4120_0000 ==> exponent(bits) >= 130,
{
    let e = exponent(bits);
    let m = 0x80_0000 + fraction(bits);
    let h = pow2(129) as int;
    lemma2_to64();
    lemma_pow2_adds(20, 129);
    lemma_pow2_pos(129);
    assert(steps(10) == 10485760 * h);
    if e == 0 {
        lemma_small(bits);
        lemma_pow2_adds(41, 88);
        lemma2_to64_rest();
        lemma_pow2_pos(88);
    } else {
        let x = pow2((e - 1) as nat) as int;
        lemma_pow2_pos((e - 1) as nat);
        if e < 130 {
            lemma_pow2_adds((130 - e) as nat, (e - 1) as nat);
            lemma_pow2_pos((130 - e) as nat);
            let c = pow2((130 - e) as nat) as int;
            if 130 - e > 1 {
                lemma_pow2_strictly_increases(1, (130 - e) as nat);
            }
            assert(m * x <= 10485760 * (c * x)) by (nonlinear_arith)
                requires
                    m <= 0x100_0000,
                    c >= 2,
                    x > 0,
            ;
        } else if e == 130 {
            assert(m * h <= 10485760 * h <==> m <= 10485760) by (nonlinear_arith)
                requires
                    h > 0,
            ;
        } else {
            lemma_pow2_adds((e - 130) as nat, 129);
            let c = pow2((e - 130) as nat) as int;
            if e - 130 > 1 {
                lemma_pow2_strictly_increases(1, (e - 130) as nat);
            }
            assert(m * (c * h) > 10485760 * h) by (nonlinear_arith)
                requires
                    m >= 0x80_0000,
                    c >= 2,
                    h > 0,
            ;
        }
    }
}

/// A place in whole nanoseconds.
pub fn nanoseconds(bits: u32) -> (n: u128)
    requires
        is_span(bits),
    ensures
        n == nanos(bits),
        n <= 0x1_0000_0000_0000_0000 * SECOND,
{
    let e: u32 = bits / 0x80_0000;
    let ghost u = pow2(149) as int;
    proof {
        assert(exponent(bits) == e);
        lemma2_to64();
        lemma2_to64_rest();
        lemma_pow2_pos(149);
    }
    if e < 90 {
        proof {
            lemma_small(bits);
            lemma_pow2_adds(61, 88);
            lemma_pow2_pos(88);
            lemma_fundamental_div_mod_converse(value(bits) * SECOND, u, 0, value(bits) * SECOND);
        }
        return 0;
    }
    let m: u128 = 0x80_0000 + (bits % 0x80_0000) as u128;
    let ghost part = pow2((e - 1) as nat) as int;
    if e < 150 {
        let k: u128 = power_of_two(150 - e) as u128;
        let scaled: u128 = m * SECOND;
        let q: u128 = scaled / k;
        let r: u128 = scaled % k;
        proof {
            lemma_pow2_pos((e - 1) as nat);
            lemma_pow2_adds((150 - e) as nat, (e - 1) as nat);
            lemma_fundamental_div_mod(scaled as int, k as int);
            assert((m * part) * SECOND == u * q + r * part) by (nonlinear_arith)
                requires
                    m * SECOND == k * q + r,
                    u == k * part,
            ;
            assert(0 <= r * part < u) by (nonlinear_arith)
                requires
                    0 <= r < k,
                    u == k * part,
                    part > 0,
            ;
            lemma_fundamental_div_mod_converse(value(bits) * SECOND, u, q as int, r * part);
            assert((2 * (r * part) > u <==> 2 * r > k) && (2 * (r * part) == u <==> 2 * r == k))
                by (nonlinear_arith)
                requires
                    u == k * part,
                    part > 0,
            ;
            assert(q <= scaled) by (nonlinear_arith)
                requires
                    scaled == k * q + r,
                    k >= 1,
                    q >= 0,
                    r >= 0,
            ;
        }
        if 2 * r > k || (2 * r == k && q % 2 == 1) {
            q + 1
        } else {
            q
        }
    } else {
        let h: u128 = power_of_two(e - 150) as u128;
        proof {
            lemma_pow2_adds((e - 150) as nat, 149);
            if e - 150 < 40 {
                lemma_pow2_strictly_increases((e - 150) as nat, 40);
            }
            assert(m * h <= 0x100_0000 * 0x100_0000_0000) by (nonlinear_arith)
                requires
                    0 <= m <= 0x100_0000,
                    0 <= h <= 0x100_0000_0000,
            ;
            let q = m * h * SECOND;
            assert((m * (h * u)) * SECOND == u * q + 0) by (nonlinear_arith)
                requires
                    q == m * h * SECOND,
            ;
            lemma_fundamental_div_mod_converse(value(bits) * SECOND, u, q, 0);
        }
        m * h * SECOND
    }
}

/// A span is a number of nanoseconds that is not below zero and fits its type.
pub(crate) proof fn lemma_nanos_size(place: u32)
    requires
        is_span(place),
    ensures
        0 <= nanos(place) <= i128::MAX,
{
    lemma2_to64();
    lemma2_to64_rest();
    lemma_pow2_pos(149);
    let u = pow2(149) as int;
    let v = value(place);
    lemma_position_size(place);
    lemma_pow2_adds(65, 149);
    lemma_pow2_unfold(65);
    let p = v * SECOND;
    let q = p / u;
    lemma_fundamental_div_mod(p, u);
    lemma_mod_bound(p, u);
    assert(0 <= q < 0x2_0000_0000_0000_0000 * 1_000_000_000) by (nonlinear_arith)
        requires
            p == u * q + p % u,
            0 <= p % u < u,
            0 <= p < 0x2_0000_0000_0000_0000 * u * 1_000_000_000,
            u > 0,
    ;
}

/// The nearest single is off by half of the last digit's worth at most.
proof fn lemma_rounding_error(n: nat)
    ensures
        2 * distance(rounded(n), n as int) <= pow2(excess(n)),
{
    let h = pow2(excess(n)) as int;
    lemma_pow2_pos(excess(n));
    lemma_fundamental_div_mod(n as int, h);
    lemma_mod_bound(n as int, h);
    let q = n as int / h;
    assert(q * h == h * q && (q + 1) * h == h * q + h) by (nonlinear_arith);
}

/// Fast-forward leads ten seconds on, but for half of the last digit's worth at most.
pub proof fn law_forward_is_nearest(place: u32)
    requires
        is_position(place),
    ensures
        2 * distance(value(later(place)), value(place) + steps(SEEK_STEP as int)) <= pow2(
            excess((value(place) + steps(SEEK_STEP as int)) as nat),
        ),
{
    lemma_later(place);
    lemma_rounding_error((value(place) + steps(SEEK_STEP as int)) as nat);
}

/// Rewind leads ten seconds back, but for half of the last digit's worth at most,
/// and to the start from the first ten seconds.
pub proof fn law_rewind_is_nearest(place: u32)
    requires
        is_position(place),
    ensures
        if value(place) <= steps(SEEK_STEP as int) {
            value(earlier(place)) == 0
        } else {
            2 * distance(value(earlier(place)), value(place) - steps(SEEK_STEP as int)) <= pow2(
                excess((value(place) - steps(SEEK_STEP as int)) as nat),
            )
        },
{
    lemma2_to64();
    if value(place) > steps(SEEK_STEP as int) {
        let rest = (value(place) - steps(SEEK_STEP as int)) as nat;
        let u = pow2(149) as int;
        assert((-10) * u == -(10 * u)) by (nonlinear_arith);
        lemma_position_size(place);
        lemma_pow2_unfold(215);
        lemma_rounded_is_single(rest);
        lemma_rounded_bounds(rest);
        lemma_excess_bound(rounded(rest) as nat, 215);
        lemma_value_of_pattern(rounded(rest) as nat);
        lemma_rounding_error(rest);
    }
}

/// The value of where fast-forward leads.
proof fn lemma_later(place: u32)
    requires
        is_position(place),
    ensures
        value(place) >= 0,
        later(place) < 0x7f80_0000,
        value(later(place)) == rounded((value(place) + steps(SEEK_STEP as int)) as nat),
{
    let sum = (value(place) + steps(SEEK_STEP as int)) as nat;
    lemma_position_size(place);
    lemma_pow2_unfold(215);
    lemma_pow2_unfold(216);
    lemma_rounded_is_single(sum);
    lemma_rounded_bounds(sum);
    lemma_excess_bound(rounded(sum) as nat, 216);
    lemma_value_of_pattern(rounded(sum) as nat);
}

/// Below two to the power of 24 seconds, rewind leads exactly ten seconds back,
/// from a place ten seconds in or more.
pub proof fn law_rewind_is_exact(place: u32)
    requires
        exponent(place) <= 150,
        is_position(place),
        value(place) >= steps(SEEK_STEP as int),
    ensures
        value(earlier(place)) == value(place) - steps(SEEK_STEP as int),
{
    let e = exponent(place);
    let m = 0x80_0000 + fraction(place);
    let u = pow2(149) as int;
    let part = pow2((e - 1) as nat) as int;
    lemma2_to64();
    lemma_pow2_pos(149);
    lemma_ten(place);
    if value(place) > steps(SEEK_STEP as int) {
        let k = pow2((150 - e) as nat) as int;
        let x = m - 10 * k;
        let n = value(place) - steps(SEEK_STEP as int);
        lemma_pow2_pos((e - 1) as nat);
        lemma_pow2_pos((150 - e) as nat);
        lemma_pow2_adds((e - 1) as nat, (150 - e) as nat);
        assert((-10) * u == -(10 * u)) by (nonlinear_arith);
        assert(m * part - 10 * (part * k) == x * part) by (nonlinear_arith)
            requires
                x == m - 10 * k,
        ;
        assert(x > 0) by (nonlinear_arith)
            requires
                x * part > 0,
                part > 0,
        ;
        lemma_short_is_kept(x as nat);
        lemma_rounded_scales(x as nat, (e - 1) as nat);
        lemma_position_size(place);
        lemma_excess_bound(n as nat, 214);
        lemma_value_of_pattern(n as nat);
    }
}

/// Below two to the power of 24 seconds, fast-forward leads back from where
/// rewind led, from a place ten seconds in or more.
pub proof fn law_forward_undoes_rewind(place: u32)
    requires
        exponent(place) <= 150,
        is_position(place),
        value(place) >= steps(SEEK_STEP as int),
    ensures
        later(earlier(place)) == place,
{
    law_rewind_is_exact(place);
    lemma_single_is_kept(place);
}

/// Rewind leads back from where fast-forward led, where that is exactly ten
/// seconds on.
pub proof fn law_rewind_undoes_forward(place: u32)
    requires
        is_position(place),
        value(later(place)) == value(place) + steps(SEEK_STEP as int),
    ensures
        earlier(later(place)) == place,
{
    lemma2_to64();
    lemma_single_is_kept(place);
    let u = pow2(149) as int;
    assert((-10) * u == -(10 * u)) by (nonlinear_arith);
}

/// A whole number of seconds is that many seconds in nanoseconds.
pub proof fn law_whole_seconds_in_nanoseconds(place: u32, whole: int)
    requires
        value(place) == steps(whole),
    ensures
        nanos(place) == whole * SECOND,
{
    let u = pow2(149) as int;
    lemma_pow2_pos(149);
    assert((whole * u) * SECOND == u * (whole * SECOND) + 0) by (nonlinear_arith);
    lemma_fundamental_div_mod_converse(value(place) * SECOND, u, whole * SECOND, 0);
}

/// No single is nearer to a number than the nearest single; and where another is as
/// near, the pattern of the nearest is even.
pub(crate) proof fn lemma_nearest(n: nat, b: u32)
    requires
        exponent(b) < 0xff,
    ensures
        distance(rounded(n), n as int) <= distance(value(b), n as int),
        distance(rounded(n), n as int) == distance(value(b), n as int) && value(b) != rounded(n)
            ==> pattern(rounded(n) as nat) % 2 == 0,
{
    let k = excess(n);
    let h = pow2(k) as int;
    let q = n as int / h;
    let r = n as int % h;
    let v = value(b);
    lemma2_to64();
    lemma_pow2_pos(k);
    lemma_excess_size(n);
    lemma_fundamental_div_mod(n as int, h);
    lemma_mod_bound(n as int, h);
    lemma_pow2_adds(23, k);
    lemma_pow2_adds(24, k);
    assert(q * h == h * q && (q + 1) * h == h * q + h) by (nonlinear_arith);
    if k == 0 {
        assert(r == 0);
    } else {
        assert(0x80_0000 <= q < 0x100_0000) by (nonlinear_arith)
            requires
                n == h * q + r,
                0 <= r < h,
                0x80_0000 * h <= n < 0x100_0000 * h,
                h > 0,
        ;
        lemma_apart(b, k, q);
        if r * 2 == h {
            let even = if q % 2 == 1 {
                q + 1
            } else {
                q
            };
            lemma_even_pattern(even, k);
        }
    }
}

/// A single does not lie between two neighbours of those that are large.
pub(crate) proof fn lemma_apart(b: u32, k: nat, q: int)
    requires
        exponent(b) < 0xff,
        0x80_0000 <= q,
    ensures
        value(b) <= q * pow2(k) || value(b) >= (q + 1) * pow2(k),
{
    let h = pow2(k) as int;
    let e = exponent(b);
    let m = 0x80_0000 + fraction(b);
    lemma2_to64();
    lemma_pow2_pos(k);
    assert(q * h >= 0x80_0000 * h) by (nonlinear_arith)
        requires
            q >= 0x80_0000,
            h > 0,
    ;
    if e == 0 {
        assert(0x80_0000 * h >= 0x80_0000) by (nonlinear_arith)
            requires
                h > 0,
        ;
    } else {
        let x = pow2((e - 1) as nat) as int;
        lemma_pow2_pos((e - 1) as nat);
        assert(m * x > 0) by (nonlinear_arith)
            requires
                m > 0,
                x > 0,
        ;
        if e - 1 < k {
            lemma_pow2_adds(e as nat, (k - e) as nat);
            lemma_pow2_pos((k - e) as nat);
            lemma_pow2_unfold(e as nat);
            let y = pow2((k - e) as nat) as int;
            assert(m * x <= 0x80_0000 * h) by (nonlinear_arith)
                requires
                    m <= 0x100_0000,
                    x > 0,
                    h == (2 * x) * y,
                    y >= 1,
            ;
        } else {
            lemma_pow2_adds((e - 1 - k) as nat, k);
            let c = m * pow2((e - 1 - k) as nat);
            assert(m * x == c * h) by (nonlinear_arith)
                requires
                    x == pow2((e - 1 - k) as nat) * h,
                    c == m * pow2((e - 1 - k) as nat),
            ;
            assert(c <= q ==> c * h <= q * h) by (nonlinear_arith)
                requires
                    h > 0,
            ;
            assert(c >= q + 1 ==> c * h >= (q + 1) * h) by (nonlinear_arith)
                requires
                    h > 0,
            ;
        }
    }
}

/// An even number of digits kept makes an even pattern.
proof fn lemma_even_pattern(t: int, k: nat)
    requires
        0x80_0000 <= t <= 0x100_0000,
        t % 2 == 0,
    ensures
        pattern((t * pow2(k)) as nat) % 2 == 0,
{
    if t == 0x100_0000 {
        lemma_pow2_unfold(k + 1);
        assert(0x100_0000 * pow2(k) == 0x80_0000 * pow2(k + 1)) by (nonlinear_arith)
            requires
                pow2(k + 1) == 2 * pow2(k),
        ;
        lemma_pattern(0x80_0000, k + 1);
        assert((k + 1) * 0x80_0000 % 2 == 0);
    } else {
        lemma_pattern(t, k);
        assert(k * 0x80_0000 % 2 == 0);
    }
}

/// The pattern of a rounded number is that of the nearest single.
pub(crate) proof fn lemma_pattern_is_nearest(n: nat)
    requires
        n < pow2(216),
    ensures
        0 <= pattern(rounded(n) as nat) < 0x7f80_0000,
        is_nearest(pattern(rounded(n) as nat) as u32, n as int),
        value(pattern(rounded(n) as nat) as u32) == rounded(n),
{
    let bits = pattern(rounded(n) as nat) as u32;
    lemma2_to64();
    lemma_rounded_is_single(n);
    lemma_pow2_unfold(217);
    if n == 0 {
        lemma_short_is_kept(0);
        lemma_pow2_pos(217);
    } else {
        lemma_rounded_bounds(n);
    }
    lemma_excess_bound(rounded(n) as nat, 217);
    lemma_value_of_pattern(rounded(n) as nat);
    assert forall|other: u32| #[trigger] exponent(other) < 0xff implies {
        ||| distance(value(bits), n as int) < distance(value(other), n as int)
        ||| value(bits) == value(other)
        ||| distance(value(bits), n as int) == distance(value(other), n as int) && bits % 2 == 0
    } by {
        lemma_nearest(n, other);
    }
}

/// Where fast-forward leads is the single nearest to ten seconds later.
pub(crate) proof fn lemma_later_is_nearest(place: u32)
    requires
        is_position(place),
    ensures
        !negative(later(place)),
        is_nearest(later(place), value(place) + 10 * pow2(149)),
{
    lemma_position_size(place);
    lemma_pow2_unfold(215);
    lemma_pow2_unfold(216);
    lemma_pattern_is_nearest((value(place) + 10 * pow2(149)) as nat);
}

/// Where rewind leads is the single nearest to ten seconds earlier, or the start.
pub(crate) proof fn lemma_earlier_is_nearest(place: u32)
    requires
        is_position(place),
    ensures
        !negative(earlier(place)),
        is_nearest(
            earlier(place),
            if value(place) > 10 * pow2(149) {
                value(place) - 10 * pow2(149)
            } else {
                0
            },
        ),
{
    lemma_position_size(place);
    lemma_pow2_unfold(215);
    lemma_pow2_unfold(216);
    let u = pow2(149) as int;
    assert((-10) * u == -(10 * u)) by (nonlinear_arith);
    if value(place) > 10 * u {
        lemma_pattern_is_nearest((value(place) - 10 * u) as nat);
    } else {
        assert(exponent(0) == 0 && fraction(0) == 0);
    }
}

/// From any place, `ten_later` leads to the single that is nearest to ten seconds
/// later.
pub proof fn law_ten_later_is_ten_seconds_on(place: u32, there: u32)
    requires
        is_position(place),
        call_ensures(ten_later, (place,), there),
    ensures
        !negative(there),
        is_nearest(there, value(place) + 10 * pow2(149)),
{
    lemma_later_is_nearest(place);
}

/// From any place, `ten_earlier` leads to the single that is nearest to ten seconds
/// earlier, but not to before the start.
pub proof fn law_ten_earlier_is_ten_seconds_back(place: u32, there: u32)
    requires
        is_position(place),
        call_ensures(ten_earlier, (place,), there),
    ensures
        !negative(there),
        is_nearest(
            there,
            if value(place) > 10 * pow2(149) {
                value(place) - 10 * pow2(149)
            } else {
                0
            },
        ),
{
    lemma_earlier_is_nearest(place);
}

/// The nanoseconds of a place are off by half a nanosecond at most.
pub(crate) proof fn lemma_nanos_are_nearest(bits: u32)
    ensures
        2 * distance(nanos(bits) * pow2(149), value(bits) * 1_000_000_000) <= pow2(149),
        2 * distance(nanos(bits) * pow2(149), value(bits) * 1_000_000_000) == pow2(149) ==> nanos(
            bits,
        ) % 2 == 0,
{
    let u = pow2(149) as int;
    let p = value(bits) * 1_000_000_000;
    lemma_pow2_pos(149);
    lemma_fundamental_div_mod(p, u);
    lemma_mod_bound(p, u);
    let q = p / u;
    assert(q * u == u * q && (q + 1) * u == u * q + u) by (nonlinear_arith);
}

/// A span in nanoseconds is off by half a nanosecond at most, and even where it is
/// off by that much.
pub proof fn law_nanoseconds_are_nearest(bits: u32, n: u128)
    requires
        call_ensures(nanoseconds, (bits,), n),
    ensures
        2 * distance(n * pow2(149), value(bits) * 1_000_000_000) <= pow2(149),
        2 * distance(n * pow2(149), value(bits) * 1_000_000_000) == pow2(149) ==> n % 2 == 0,
{
    lemma_nanos_are_nearest(bits);
}

/// The exponent field tells how large a single is.
proof fn lemma_exponent_tells_size(bits: u32, top: nat)
    requires
        2 <= top,
        !negative(bits),
    ensures
        exponent(bits) < top <==> value(bits) < pow2(22 + top),
{
    let e = exponent(bits);
    let m = 0x80_0000 + fraction(bits);
    lemma2_to64();
    lemma_pow2_adds(23, (top - 1) as nat);
    lemma_pow2_adds(24, (top - 2) as nat);
    if e == 0 {
        if top > 2 {
            lemma_pow2_strictly_increases(24, 22 + top);
        }
    } else {
        let x = pow2((e - 1) as nat) as int;
        lemma_pow2_pos((e - 1) as nat);
        if e > top {
            lemma_pow2_strictly_increases((top - 1) as nat, (e - 1) as nat);
        }
        if e < top - 1 {
            lemma_pow2_strictly_increases((e - 1) as nat, (top - 2) as nat);
        }
        assert(x >= pow2((top - 1) as nat) ==> m * x >= 0x80_0000 * pow2((top - 1) as nat))
            by (nonlinear_arith)
            requires
                m >= 0x80_0000,
                x > 0,
        ;
        assert(x <= pow2((top - 2) as nat) ==> m * x < 0x100_0000 * pow2((top - 2) as nat))
            by (nonlinear_arith)
            requires
                0 < m < 0x100_0000,
                x > 0,
        ;
    }
}

/// The singles that can be sought are those of a number of seconds that is not below
/// zero and that 64 bits can count.
pub proof fn law_spans_are_counted_by_64_bits(bits: u32)
    ensures
        is_span(bits) <==> !negative(bits) && value(bits) < pow2(64) * pow2(149),
{
    lemma_pow2_adds(64, 149);
    if !negative(bits) {
        lemma_exponent_tells_size(bits, 191);
    }
}

/// The places that the controls seek from are those below twice that number.
pub proof fn law_positions_are_twice_as_many(bits: u32)
    ensures
        is_position(bits) <==> !negative(bits) && value(bits) < pow2(65) * pow2(149),
{
    lemma_pow2_adds(65, 149);
    if !negative(bits) {
        lemma_exponent_tells_size(bits, 192);
    }
}

} // verus!
