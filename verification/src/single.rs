//! IEEE singles, by their bit patterns, against whole numbers.
//!
//! Values are measured in steps: a step is the smallest positive single, two to
//! the power of minus 149. Every finite single is a whole number of steps.

use vstd::prelude::*;
use vstd::arithmetic::power2::{
    lemma2_to64, lemma2_to64_rest, lemma_pow2_adds, lemma_pow2_pos, lemma_pow2_strictly_increases,
    lemma_pow2_unfold, pow2,
};

verus! {

/// The single nearest to a tenth.
pub const TENTH: u32 = 0x3dcc_cccd;

/// The exponent field of a bit pattern.
pub open spec fn exponent(bits: u32) -> int {
    (bits as int / 0x80_0000) % 0x100
}

/// The fraction field of a bit pattern.
pub open spec fn fraction(bits: u32) -> int {
    bits as int % 0x80_0000
}

/// The sign bit of a bit pattern is set.
pub open spec fn negative(bits: u32) -> bool {
    bits >= 0x8000_0000
}

/// The pattern stands for no number.
pub open spec fn is_nan(bits: u32) -> bool {
    exponent(bits) == 0xff && fraction(bits) != 0
}

/// The pattern stands for an infinity.
pub open spec fn is_infinite(bits: u32) -> bool {
    exponent(bits) == 0xff && fraction(bits) == 0
}

/// How many steps a finite single is away from zero.
pub open spec fn magnitude(bits: u32) -> int {
    if exponent(bits) == 0 {
        fraction(bits)
    } else {
        (0x80_0000 + fraction(bits)) * pow2((exponent(bits) - 1) as nat)
    }
}

/// The value of a finite single, in steps.
pub open spec fn value(bits: u32) -> int {
    if negative(bits) {
        -magnitude(bits)
    } else {
        magnitude(bits)
    }
}

/// The value of a whole number, in steps.
pub open spec fn steps(whole: int) -> int {
    whole * pow2(149)
}

/// The distance between two numbers.
pub open spec fn distance(a: int, b: int) -> int {
    if a >= b {
        a - b
    } else {
        b - a
    }
}

/// The single lies more than a tenth away from the whole number. An infinity
/// does; what is no number does not.
pub open spec fn is_off(whole: int, bits: u32) -> bool {
    if is_nan(bits) {
        false
    } else if is_infinite(bits) {
        true
    } else {
        distance(steps(whole), value(bits)) > value(TENTH)
    }
}

/// Two to the power of `k`, in machine integers.
pub(crate) fn power_of_two(k: u32) -> (power: i128)
    requires
        k <= 64,
    ensures
        power == pow2(k as nat),
        0 < power <= 0x1_0000_0000_0000_0000,
{
    let mut power: i128 = 1;
    let mut i: u32 = 0;
    proof {
        lemma2_to64();
    }
    while i < k
        invariant
            i <= k <= 64,
            power == pow2(i as nat),
            pow2(64) == 0x1_0000_0000_0000_0000,
        decreases k - i,
    {
        proof {
            lemma_pow2_unfold((i + 1) as nat);
            lemma_pow2_strictly_increases(i as nat, 64);
        }
        power = power * 2;
        i = i + 1;
    }
    proof {
        lemma_pow2_pos(k as nat);
        if k < 64 {
            lemma_pow2_strictly_increases(k as nat, 64);
        }
    }
    power
}

/// A tenth, in steps, is less than a whole.
pub(crate) proof fn lemma_tenth()
    ensures
        value(TENTH) == 13421773 * pow2(122),
        0 < value(TENTH) < pow2(149),
{
    lemma2_to64();
    lemma_pow2_pos(122);
    lemma_pow2_adds(122, 27);
    assert(13421773 * pow2(122) < pow2(122) * pow2(27)) by (nonlinear_arith)
        requires
            pow2(122) > 0,
            pow2(27) == 0x800_0000,
    ;
}

/// A single of one or more steps per unit of its fraction is off just where it
/// is another number than the whole one.
proof fn lemma_off_large(whole: int, m: int, e: int, minus: bool)
    requires
        e >= 150,
    ensures
        ({
            let q = m * pow2((e - 150) as nat);
            let v = m * pow2((e - 1) as nat);
            distance(
                steps(whole),
                if minus {
                    -v
                } else {
                    v
                },
            ) > value(TENTH) <==> whole != if minus {
                -q
            } else {
                q
            }
        }),
{
    let u = pow2(149) as int;
    let h = pow2((e - 150) as nat) as int;
    let q = m * h;
    lemma_tenth();
    lemma_pow2_adds((e - 150) as nat, 149);
    assert(m * (h * u) == q * u) by (nonlinear_arith)
        requires
            q == m * h,
    ;
    let s = if minus {
        -q
    } else {
        q
    };
    assert((-q) * u == -(q * u)) by (nonlinear_arith);
    assert(whole * u - s * u == (whole - s) * u) by (nonlinear_arith);
    let d = whole - s;
    assert(d >= 1 ==> d * u >= u) by (nonlinear_arith)
        requires
            u > 0,
    ;
    assert(d <= -1 ==> d * u <= -u) by (nonlinear_arith)
        requires
            u > 0,
    ;
    assert(d == 0 ==> d * u == 0) by (nonlinear_arith);
}

/// Distances scale with the unit that they are measured in.
proof fn lemma_distance_scales(a: int, b: int, u: int)
    requires
        u > 0,
    ensures
        distance(a * u, b * u) == distance(a, b) * u,
{
    assert(a * u - b * u == (a - b) * u) by (nonlinear_arith);
    assert(b * u - a * u == (b - a) * u) by (nonlinear_arith);
    assert(a >= b ==> a * u >= b * u) by (nonlinear_arith)
        requires
            u > 0,
    ;
    assert(a < b ==> a * u < b * u) by (nonlinear_arith)
        requires
            u > 0,
    ;
}

/// A single whose fraction's unit is less than one is off where its distance in
/// those units exceeds a tenth in those units.
proof fn lemma_off_middle(whole: int, m: int, e: int, minus: bool)
    requires
        1 <= e < 150,
    ensures
        ({
            let s = if minus {
                -m
            } else {
                m
            };
            let v = m * pow2((e - 1) as nat);
            let d = distance(whole * pow2((150 - e) as nat), s);
            distance(
                steps(whole),
                if minus {
                    -v
                } else {
                    v
                },
            ) > value(TENTH) <==> if e <= 123 {
                d > 13421773 * pow2((123 - e) as nat)
            } else {
                d * pow2((e - 123) as nat) > 13421773
            }
        }),
{
    let unit = pow2((e - 1) as nat) as int;
    let k = pow2((150 - e) as nat) as int;
    let s = if minus {
        -m
    } else {
        m
    };
    let d = distance(whole * k, s);
    lemma_tenth();
    lemma_pow2_pos((e - 1) as nat);
    lemma_pow2_adds((150 - e) as nat, (e - 1) as nat);
    assert(whole * (k * unit) == (whole * k) * unit) by (nonlinear_arith);
    assert((-m) * unit == -(m * unit)) by (nonlinear_arith);
    lemma_distance_scales(whole * k, s, unit);
    if e <= 123 {
        let p = pow2((123 - e) as nat) as int;
        lemma_pow2_adds((123 - e) as nat, (e - 1) as nat);
        assert(13421773 * (p * unit) == (13421773 * p) * unit) by (nonlinear_arith);
        let t = 13421773 * p;
        assert(d * unit > t * unit <==> d > t) by (nonlinear_arith)
            requires
                unit > 0,
        ;
    } else {
        let p = pow2((e - 123) as nat) as int;
        let w = pow2(122) as int;
        lemma_pow2_pos(122);
        lemma_pow2_adds((e - 123) as nat, 122);
        assert(d * (p * w) == (d * p) * w) by (nonlinear_arith);
        let t = d * p;
        assert(t * w > 13421773 * w <==> t > 13421773) by (nonlinear_arith)
            requires
                w > 0,
        ;
    }
}

/// A single with a small exponent field is close to zero.
pub(crate) proof fn lemma_small(bits: u32)
    requires
        exponent(bits) < 90,
    ensures
        0 <= magnitude(bits) < 0x100_0000 * pow2(88),
{
    let p = pow2(88) as int;
    lemma_pow2_pos(88);
    if exponent(bits) == 0 {
        assert(0x100_0000 <= 0x100_0000 * p) by (nonlinear_arith)
            requires
                p > 0,
        ;
    } else {
        let f = 0x80_0000 + fraction(bits);
        let x = pow2((exponent(bits) - 1) as nat) as int;
        lemma_pow2_pos((exponent(bits) - 1) as nat);
        if exponent(bits) - 1 < 88 {
            lemma_pow2_strictly_increases((exponent(bits) - 1) as nat, 88);
        }
        assert(0 <= f * x < 0x100_0000 * p) by (nonlinear_arith)
            requires
                0 <= f < 0x100_0000,
                0 < x <= p,
        ;
    }
}

/// A single that is closer to zero than a tenth of a tenth is off any whole
/// number but zero.
proof fn lemma_off_small(whole: int, bits: u32)
    requires
        exponent(bits) < 90,
    ensures
        distance(steps(whole), value(bits)) > value(TENTH) <==> whole != 0,
{
    lemma_tenth();
    lemma2_to64();
    lemma2_to64_rest();
    lemma_pow2_pos(88);
    lemma_pow2_adds(34, 88);
    lemma_pow2_adds(61, 88);
    lemma_small(bits);
    let u = pow2(149) as int;
    assert(whole >= 1 ==> whole * u >= u) by (nonlinear_arith)
        requires
            u > 0,
    ;
    assert(whole <= -1 ==> whole * u <= -u) by (nonlinear_arith)
        requires
            u > 0,
    ;
    assert(whole == 0 ==> whole * u == 0) by (nonlinear_arith);
}

/// Whether the single lies more than a tenth away from the whole number.
pub fn strays(whole: i64, bits: u32) -> (off: bool)
    requires
        -0x4_0000_0000 <= whole <= 0x4_0000_0000,
    ensures
        off == is_off(whole as int, bits),
{
    let e: u32 = (bits / 0x80_0000) % 0x100;
    let f: u32 = bits % 0x80_0000;
    let minus: bool = bits >= 0x8000_0000;
    if e == 0xff {
        return f == 0;
    }
    if e < 90 {
        proof {
            lemma_off_small(whole as int, bits);
        }
        return whole != 0;
    }
    let m: i128 = 0x80_0000 + f as i128;
    let signed: i128 = if minus {
        -m
    } else {
        m
    };
    if e >= 183 {
        proof {
            lemma_off_large(whole as int, m as int, e as int, minus);
            lemma2_to64_rest();
            let h = pow2((e - 150) as nat) as int;
            if e > 183 {
                lemma_pow2_strictly_increases(33, (e - 150) as nat);
            }
            assert(m * h >= 0x80_0000 * 0x2_0000_0000) by (nonlinear_arith)
                requires
                    m >= 0x80_0000,
                    h >= 0x2_0000_0000,
            ;
        }
        true
    } else if e >= 150 {
        let h: i128 = power_of_two(e - 150);
        proof {
            lemma_off_large(whole as int, m as int, e as int, minus);
            lemma2_to64();
            lemma2_to64_rest();
            if e - 150 < 33 {
                lemma_pow2_strictly_increases((e - 150) as nat, 33);
            }
            assert(0 <= m * h <= 0x100_0000 * 0x2_0000_0000) by (nonlinear_arith)
                requires
                    0 <= m <= 0x100_0000,
                    0 <= h <= 0x2_0000_0000,
            ;
            assert((-m) * h == -(m * h)) by (nonlinear_arith);
        }
        whole as i128 != signed * h
    } else {
        let k: i128 = power_of_two(150 - e);
        proof {
            lemma_off_middle(whole as int, m as int, e as int, minus);
            lemma2_to64();
            lemma2_to64_rest();
            if 150 - e < 60 {
                lemma_pow2_strictly_increases((150 - e) as nat, 60);
            }
            let w = whole as int;
            assert(-0x4_0000_0000 * 0x1000_0000_0000_0000 <= w * k <= 0x4_0000_0000
                * 0x1000_0000_0000_0000) by (nonlinear_arith)
                requires
                    -0x4_0000_0000 <= w <= 0x4_0000_0000,
                    0 <= k <= 0x1000_0000_0000_0000,
            ;
        }
        let scaled: i128 = whole as i128 * k;
        let d: i128 = if scaled >= signed {
            scaled - signed
        } else {
            signed - scaled
        };
        if e <= 123 {
            let p: i128 = power_of_two(123 - e);
            proof {
                if 123 - e < 33 {
                    lemma_pow2_strictly_increases((123 - e) as nat, 33);
                }
            }
            d > 13421773 * p
        } else {
            let p: i128 = power_of_two(e - 123);
            proof {
                if e - 123 < 26 {
                    lemma_pow2_strictly_increases((e - 123) as nat, 26);
                }
                let big = d as int;
                assert(0 <= big * p <= 0x1_0000_0000_0000_0000_0000_0000 * 0x400_0000)
                    by (nonlinear_arith)
                    requires
                        0 <= big <= 0x1_0000_0000_0000_0000_0000_0000,
                        0 <= p <= 0x400_0000,
                ;
            }
            d * p > 13421773
        }
    }
}

/// How many binary digits of `n` a single has no room for.
pub open spec fn excess(n: nat) -> nat
    decreases n,
{
    if n < 0x100_0000 {
        0
    } else {
        1 + excess(n / 2)
    }
}

/// The whole number nearest to `n` that is a single; of two that are as near,
/// the one whose last digit is even.
pub open spec fn rounded(n: nat) -> int {
    let h = pow2(excess(n)) as int;
    let q = n as int / h;
    let r = n as int % h;
    if 2 * r > h || (2 * r == h && q % 2 == 1) {
        (q + 1) * h
    } else {
        q * h
    }
}

/// The value, as a single, of a whole number.
pub open spec fn as_single(whole: int) -> int {
    if whole < 0 {
        -rounded((-whole) as nat)
    } else {
        rounded(whole as nat)
    }
}

/// What becomes of the single and a whole number when they are added as singles
/// and the sum is cut to a whole number from zero to the greatest of 32 bits.
pub open spec fn cut_sum(bits: u32, whole: int) -> int {
    if is_nan(bits) {
        0
    } else if is_infinite(bits) {
        if negative(bits) {
            0
        } else {
            u32::MAX as int
        }
    } else {
        let sum = value(bits) + steps(whole);
        if sum <= 0 {
            0
        } else {
            capped(rounded(sum as nat) / (pow2(149) as int))
        }
    }
}

/// A number, or the greatest of 32 bits where it is above that.
pub open spec fn capped(n: int) -> int {
    if n > u32::MAX {
        u32::MAX as int
    } else {
        n
    }
}

/// The bit pattern of the single, not below zero, that is `v` steps.
pub open spec fn pattern(v: nat) -> int {
    excess(v) * 0x80_0000 + v as int / (pow2(excess(v)) as int)
}

/// The pattern is that of the single with the given whole value.
pub open spec fn stands_for(bits: u32, whole: int) -> bool {
    &&& exponent(bits) < 0xff
    &&& value(bits) == steps(whole)
    &&& negative(bits) <==> whole < 0
}

/// Of all singles, the pattern's is the one nearest to `n` steps; and where another
/// is as near, the pattern is even.
pub open spec fn is_nearest(bits: u32, n: int) -> bool {
    &&& exponent(bits) < 0xff
    &&& forall|other: u32| #[trigger]
        exponent(other) < 0xff ==> {
            ||| distance(value(bits), n) < distance(value(other), n)
            ||| value(bits) == value(other)
            ||| distance(value(bits), n) == distance(value(other), n) && bits % 2 == 0
        }
}

/// Doubling a number doubles its nearest single.
proof fn lemma_rounded_doubles(n: nat)
    ensures
        rounded(2 * n) == 2 * rounded(n),
{
    let h = pow2(excess(n)) as int;
    lemma_pow2_pos(excess(n));
    lemma2_to64();
    if 2 * n < 0x100_0000 {
        vstd::arithmetic::div_mod::lemma_div_basics(n as int);
        vstd::arithmetic::div_mod::lemma_div_basics(2 * n as int);
    } else {
        assert((2 * n) / 2 == n);
        lemma_pow2_unfold(excess(2 * n));
        assert(excess(2 * n) == 1 + excess(n));
        let q = n as int / h;
        let r = n as int % h;
        vstd::arithmetic::div_mod::lemma_fundamental_div_mod(n as int, h);
        vstd::arithmetic::div_mod::lemma_mod_bound(n as int, h);
        assert(2 * n == (2 * h) * q + 2 * r) by (nonlinear_arith)
            requires
                n == h * q + r,
        ;
        vstd::arithmetic::div_mod::lemma_fundamental_div_mod_converse(
            2 * n as int,
            2 * h,
            q,
            2 * r,
        );
        assert((q + 1) * (2 * h) == 2 * ((q + 1) * h)) by (nonlinear_arith);
        assert(q * (2 * h) == 2 * (q * h)) by (nonlinear_arith);
    }
}

/// A power of two in a number is one in its nearest single.
pub(crate) proof fn lemma_rounded_scales(n: nat, j: nat)
    ensures
        rounded((n * pow2(j)) as nat) == rounded(n) * pow2(j),
    decreases j,
{
    lemma2_to64();
    if j > 0 {
        let i = (j - 1) as nat;
        lemma_rounded_scales(n, i);
        lemma_pow2_unfold(j);
        lemma_rounded_doubles((n * pow2(i)) as nat);
        assert(n * (2 * pow2(i)) == 2 * (n * pow2(i))) by (nonlinear_arith);
        assert(rounded(n) * (2 * pow2(i)) == 2 * (rounded(n) * pow2(i))) by (nonlinear_arith);
    } else {
        assert(n * 1 == n);
    }
}

/// The digits that a single keeps of a whole number, how many it drops behind
/// them, and the power of two that those were worth.
pub(crate) fn significant(n: u128) -> (parts: (u128, u32, u128))
    requires
        n < 0x1_0000_0000_0000_0000_0000_0000,
    ensures
        parts.0 * pow2(parts.1 as nat) == rounded(n as nat),
        parts.2 == pow2(parts.1 as nat),
        parts.2 <= 0x200_0000_0000_0000_0000,
        parts.0 <= 0x100_0000,
        parts.1 <= 73,
        parts.0 >= 1 || n == 0,
{
    let mut k: u32 = 0;
    let mut h: u128 = 1;
    proof {
        lemma2_to64();
        lemma2_to64_rest();
        lemma_pow2_adds(64, 9);
    }
    while n / h >= 0x100_0000
        invariant
            k <= 73,
            h == pow2(k as nat),
            1 <= h <= 0x200_0000_0000_0000_0000,
            n < 0x1_0000_0000_0000_0000_0000_0000,
            n == 0 || n / h >= 1,
            excess(n as nat) == k + excess((n / h) as nat),
            pow2(73) == 0x200_0000_0000_0000_0000,
        decreases 73 - k,
    {
        proof {
            assert(h < 0x200_0000_0000_0000_0000) by (nonlinear_arith)
                requires
                    n / h >= 0x100_0000,
                    n < 0x1_0000_0000_0000_0000_0000_0000,
                    h >= 1,
            ;
            lemma_pow2_unfold((k + 1) as nat);
            vstd::arithmetic::div_mod::lemma_div_denominator(n as int, h as int, 2);
            if k + 1 < 73 {
                lemma_pow2_strictly_increases((k + 1) as nat, 73);
            }
        }
        h = h * 2;
        k = k + 1;
    }
    let q: u128 = n / h;
    let r: u128 = n % h;
    if 2 * r > h || (2 * r == h && q % 2 == 1) {
        (q + 1, k, h)
    } else {
        (q, k, h)
    }
}

/// The number of digits that are dropped follows from the number's size.
proof fn lemma_excess(n: nat, k: nat)
    requires
        k >= 1,
        pow2(23 + k) <= n < pow2(24 + k),
    ensures
        excess(n) == k,
    decreases k,
{
    lemma2_to64();
    lemma_pow2_unfold(23 + k);
    lemma_pow2_unfold(24 + k);
    if k == 1 {
        assert(excess(n / 2) == 0);
    } else {
        lemma_pow2_strictly_increases(24, 23 + k);
        lemma_excess(n / 2, (k - 1) as nat);
    }
}

/// Moving a factor of two between fraction and exponent keeps the value.
proof fn lemma_normal(t: int, carry: nat, j: nat, kept: int, shift: nat)
    requires
        j <= shift + carry,
        t * pow2(carry) == kept * pow2(j),
    ensures
        t * pow2((shift + carry - j) as nat) == kept * pow2(shift),
{
    let a = pow2((shift + carry - j) as nat) as int;
    let b = pow2(j) as int;
    let c = pow2(carry) as int;
    let d = pow2(shift) as int;
    lemma_pow2_pos(j);
    lemma_pow2_adds((shift + carry - j) as nat, j);
    lemma_pow2_adds(shift, carry);
    assert((t * a) * b == (kept * d) * b) by (nonlinear_arith)
        requires
            a * b == d * c,
            t * c == kept * b,
    ;
    assert(t * a == kept * d) by (nonlinear_arith)
        requires
            (t * a) * b == (kept * d) * b,
            b > 0,
    ;
}

/// The fields of a normal single make up its pattern.
pub(crate) proof fn lemma_pattern(t: int, k: nat)
    requires
        0x80_0000 <= t < 0x100_0000,
    ensures
        t * pow2(k) > 0,
        pattern((t * pow2(k)) as nat) == k * 0x80_0000 + t,
{
    let h = pow2(k) as int;
    let n = t * h;
    lemma2_to64();
    lemma_pow2_pos(k);
    lemma_pow2_adds(23, k);
    lemma_pow2_adds(24, k);
    assert(0x80_0000 * h <= n < 0x100_0000 * h) by (nonlinear_arith)
        requires
            0x80_0000 <= t < 0x100_0000,
            n == t * h,
            h > 0,
    ;
    if k == 0 {
        assert(excess(n as nat) == 0);
    } else {
        lemma_excess(n as nat, k);
    }
    assert(n == h * t) by (nonlinear_arith)
        requires
            n == t * h,
    ;
    vstd::arithmetic::div_mod::lemma_fundamental_div_mod_converse(n, h, t, 0);
}

/// The pattern of the single with the given digits, times a power of two, in steps.
pub(crate) fn packed(kept: u128, shift: u32) -> (bits: u32)
    requires
        1 <= kept <= 0x100_0000,
        23 <= shift <= 250,
    ensures
        bits == pattern((kept * pow2(shift as nat)) as nat),
        bits < 0x7f80_0000,
        value(bits) == kept * pow2(shift as nat),
{
    let mut t: u128 = kept;
    let mut j: u32 = 0;
    proof {
        lemma2_to64();
    }
    while t < 0x80_0000
        invariant
            1 <= kept <= 0x100_0000,
            1 <= t <= 0x100_0000,
            t == kept * pow2(j as nat),
            j <= 23,
            t >= pow2(j as nat),
            pow2(23) == 0x80_0000,
        decreases 0x100_0000 - t,
    {
        proof {
            lemma_pow2_unfold((j + 1) as nat);
            assert(kept * (2 * pow2(j as nat)) == 2 * (kept * pow2(j as nat)))
                by (nonlinear_arith);
        }
        t = t * 2;
        j = j + 1;
    }
    let carry: u32 = if t == 0x100_0000 {
        1
    } else {
        0
    };
    if carry == 1 {
        t = 0x80_0000;
    }
    let k: u32 = shift + carry - j;
    let bits: u32 = k * 0x80_0000 + t as u32;
    proof {
        lemma2_to64();
        lemma_normal(t as int, carry as nat, j as nat, kept as int, shift as nat);
        lemma_pattern(t as int, k as nat);
        assert(exponent(bits) == k + 1);
        assert(fraction(bits) == t - 0x80_0000);
    }
    bits
}

/// The single for a whole number.
pub fn single_of(whole: i64) -> (bits: u32)
    requires
        -0x1_0000_0000 <= whole <= 0x1_0000_0000,
    ensures
        stands_for(bits, as_single(whole as int)),
{
    if whole == 0 {
        proof {
            lemma2_to64();
            assert(0 * pow2(149) == 0) by (nonlinear_arith);
        }
        return 0;
    }
    let n: u128 = if whole < 0 {
        (-whole) as u128
    } else {
        whole as u128
    };
    let (kept, cut, _worth): (u128, u32, u128) = significant(n);
    let unsigned: u32 = packed(kept, cut + 149);
    let bits: u32 = if whole < 0 {
        0x8000_0000 + unsigned
    } else {
        unsigned
    };
    proof {
        assert(exponent(bits) == exponent(unsigned));
        assert(fraction(bits) == fraction(unsigned));
        lemma_rounded_bounds(n as nat);
        let near = rounded(n as nat);
        lemma_pow2_adds(cut as nat, 149);
        assert(kept * (pow2(cut as nat) * pow2(149)) == near * pow2(149)) by (nonlinear_arith)
            requires
                near == kept * pow2(cut as nat),
        ;
        assert((-near) * pow2(149) == -(near * pow2(149))) by (nonlinear_arith);
    }
    bits
}

/// What is worth one unit of the digits kept is not more than the number.
proof fn lemma_excess_fits(n: nat)
    requires
        n >= 1,
    ensures
        pow2(excess(n)) <= n,
    decreases n,
{
    lemma2_to64();
    if n >= 0x100_0000 {
        lemma_excess_fits(n / 2);
        lemma_pow2_unfold(excess(n));
    }
}

/// The nearest single is more than half the number, and not more than twice it.
pub(crate) proof fn lemma_rounded_bounds(n: nat)
    requires
        n >= 1,
    ensures
        2 * rounded(n) > n,
        rounded(n) <= 2 * n,
{
    let h = pow2(excess(n)) as int;
    lemma_pow2_pos(excess(n));
    lemma_excess_fits(n);
    vstd::arithmetic::div_mod::lemma_fundamental_div_mod(n as int, h);
    vstd::arithmetic::div_mod::lemma_mod_bound(n as int, h);
    let q = n as int / h;
    let r = n as int % h;
    assert(q >= 1) by (nonlinear_arith)
        requires
            n == h * q + r,
            0 <= r < h,
            n >= h,
    ;
    assert(2 * (q * h) > n && 2 * ((q + 1) * h) > n && q * h <= 2 * n && (q + 1) * h <= 2 * n)
        by (nonlinear_arith)
        requires
            n == h * q + r,
            0 <= r < h,
            h <= n,
            q >= 1,
    ;
}

/// A single that is closer to zero than a tenth of a tenth is lost when it is
/// added to ten or twenty.
pub(crate) proof fn lemma_absorbed(bits: u32, whole: int)
    requires
        exponent(bits) < 90,
        whole == 10 || whole == 20,
    ensures
        value(bits) + steps(whole) > 0,
        rounded((value(bits) + steps(whole)) as nat) == steps(whole),
{
    lemma2_to64();
    lemma2_to64_rest();
    let v = value(bits);
    let k: nat = if whole == 10 {
        129
    } else {
        130
    };
    let h = pow2(k) as int;
    lemma_small(bits);
    lemma_pow2_pos(88);
    lemma_pow2_adds((k - 88) as nat, 88);
    lemma_pow2_adds((149 - k) as nat, k);
    lemma_pow2_adds(23, k);
    lemma_pow2_adds(24, k);
    let sum = v + steps(whole);
    assert(sum == 10485760 * h + v) by {
        let c = pow2((149 - k) as nat) as int;
        assert(whole * c == 10485760) by {
            if whole == 10 {
                assert(c == pow2(20));
            } else {
                assert(c == pow2(19));
            }
        }
        assert(whole * (c * h) == (whole * c) * h) by (nonlinear_arith);
    }
    assert(h >= pow2(41) * pow2(88)) by {
        if whole == 20 {
            lemma_pow2_unfold(130);
            lemma_pow2_adds(41, 88);
        }
    }
    lemma_excess(sum as nat, k);
    if v >= 0 {
        vstd::arithmetic::div_mod::lemma_fundamental_div_mod_converse(sum, h, 10485760, v);
    } else {
        vstd::arithmetic::div_mod::lemma_fundamental_div_mod_converse(sum, h, 10485759, h + v);
    }
}

/// In units of its fraction, or in whole numbers where those are smaller, a sum
/// is cut as it is in steps.
proof fn lemma_cut_scaled(x: int, unit: nat, per_whole: nat)
    requires
        x > 0,
        unit + per_whole == 149,
    ensures
        x * pow2(unit) > 0,
        rounded((x * pow2(unit)) as nat) / (pow2(149) as int) == rounded(x as nat) / (pow2(
            per_whole,
        ) as int),
{
    let e = pow2(unit) as int;
    let k = pow2(per_whole) as int;
    lemma_pow2_pos(unit);
    lemma_pow2_pos(per_whole);
    lemma_pow2_adds(unit, per_whole);
    lemma_rounded_scales(x as nat, unit);
    assert(x * e > 0) by (nonlinear_arith)
        requires
            x > 0,
            e > 0,
    ;
    let a = rounded(x as nat);
    lemma_rounded_bounds(x as nat);
    vstd::arithmetic::div_mod::lemma_div_denominator(a * e, e, k);
    vstd::arithmetic::div_mod::lemma_div_multiples_vanish(a, e);
    assert(a * e == e * a) by (nonlinear_arith);
}

/// The value, as a single, of a whole number.
pub fn whole_single(whole: i64) -> (near: i64)
    requires
        -0x1_0000_0000 <= whole <= 0x1_0000_0000,
    ensures
        near == as_single(whole as int),
        -0x2_0000_0000 <= near <= 0x2_0000_0000,
{
    let n: u128 = if whole < 0 {
        (-whole) as u128
    } else {
        whole as u128
    };
    let (kept, _dropped, worth): (u128, u32, u128) = significant(n);
    proof {
        if n == 0 {
            lemma2_to64();
        } else {
            lemma_rounded_bounds(n as nat);
        }
    }
    let near: i64 = (kept * worth) as i64;
    if whole < 0 {
        -near
    } else {
        near
    }
}

/// The sign of a sum is the same in steps as in larger units.
proof fn lemma_sign_scaled(x: int, e: int)
    requires
        e > 0,
        x <= 0,
    ensures
        x * e <= 0,
{
    assert(x * e <= 0) by (nonlinear_arith)
        requires
            x <= 0,
            e > 0,
    ;
}

/// A positive sum, cut: `x` is the sum in units of which `per_whole` make one.
fn cut_positive(x: u128, per_whole: u128) -> (cut: u32)
    requires
        0 < x < 0x1_0000_0000_0000_0000_0000_0000,
        per_whole > 0,
    ensures
        cut == capped(rounded(x as nat) / (per_whole as int)),
{
    let (kept, _dropped, worth): (u128, u32, u128) = significant(x);
    proof {
        assert(kept * worth <= 0x100_0000 * 0x200_0000_0000_0000_0000) by (nonlinear_arith)
            requires
                0 <= kept <= 0x100_0000,
                0 <= worth <= 0x200_0000_0000_0000_0000,
        ;
    }
    let whole: u128 = kept * worth / per_whole;
    if whole > 0xffff_ffff {
        0xffff_ffff
    } else {
        whole as u32
    }
}

/// Adds twenty to a single and cuts the sum to a whole number.
pub fn raised_by_twenty(bits: u32) -> (cut: u32)
    ensures
        cut == cut_sum(bits, 20),
{
    let e: u32 = (bits / 0x80_0000) % 0x100;
    let f: u32 = bits % 0x80_0000;
    let minus: bool = bits >= 0x8000_0000;
    if e == 0xff {
        return if f == 0 && !minus {
            0xffff_ffff
        } else {
            0
        };
    }
    if e < 90 {
        proof {
            lemma_absorbed(bits, 20);
            let u = pow2(149) as int;
            lemma_pow2_pos(149);
            vstd::arithmetic::div_mod::lemma_fundamental_div_mod_converse(20 * u, u, 20, 0);
        }
        return 20;
    }
    let m: i128 = 0x80_0000 + f as i128;
    let ghost v = value(bits);
    let ghost part = pow2((e - 1) as nat) as int;
    let ghost signed = if minus {
        -(m as int)
    } else {
        m as int
    };
    proof {
        lemma_pow2_pos((e - 1) as nat);
        assert((-m) * part == -(m * part)) by (nonlinear_arith);
        assert(v == signed * part);
        lemma2_to64();
        lemma2_to64_rest();
        lemma_pow2_pos(149);
    }
    if e < 150 {
        let k: i128 = power_of_two(150 - e);
        let x: i128 = if minus {
            20 * k - m
        } else {
            20 * k + m
        };
        proof {
            lemma_pow2_adds((e - 1) as nat, (150 - e) as nat);
            assert(signed * part + 20 * (part * k) == (20 * k + signed) * part)
                by (nonlinear_arith);
            if x <= 0 {
                lemma_sign_scaled(x as int, part);
            } else {
                lemma_cut_scaled(x as int, (e - 1) as nat, (150 - e) as nat);
            }
        }
        if x <= 0 {
            0
        } else {
            cut_positive(x as u128, k as u128)
        }
    } else {
        let ghost per = pow2((e - 150) as nat) as int;
        let ghost u = pow2(149) as int;
        let ghost x = 20 + signed * per;
        proof {
            lemma_pow2_adds((e - 150) as nat, 149);
            lemma_pow2_pos((e - 150) as nat);
            assert(signed * (per * u) + 20 * u == (20 + signed * per) * u) by (nonlinear_arith);
            if x <= 0 {
                lemma_sign_scaled(x, u);
            } else {
                lemma_cut_scaled(x, 149, 0);
            }
            assert((-m) * per == -(m * per)) by (nonlinear_arith);
            assert(m * per >= m) by (nonlinear_arith)
                requires
                    per >= 1,
                    m >= 0,
            ;
        }
        if minus {
            0
        } else if e >= 183 {
            proof {
                if e > 183 {
                    lemma_pow2_strictly_increases(33, (e - 150) as nat);
                }
                assert(m * per >= 0x80_0000 * 0x2_0000_0000) by (nonlinear_arith)
                    requires
                        m >= 0x80_0000,
                        per >= 0x2_0000_0000,
                ;
                lemma_rounded_bounds(x as nat);
            }
            0xffff_ffff
        } else {
            let h: i128 = power_of_two(e - 150);
            proof {
                assert(0 <= m * h <= 0x100_0000 * 0x1_0000_0000_0000_0000) by (nonlinear_arith)
                    requires
                        0 <= m <= 0x100_0000,
                        0 <= h <= 0x1_0000_0000_0000_0000,
                ;
            }
            cut_positive((20 + m * h) as u128, 1)
        }
    }
}

/// A single is not off the whole number that it stands for, and is off every
/// other.
pub proof fn law_singles_tell_whole_numbers_apart(bits: u32, whole: int, other: int)
    requires
        stands_for(bits, whole),
    ensures
        !is_off(whole, bits),
        other != whole ==> is_off(other, bits),
{
    let u = pow2(149) as int;
    lemma_tenth();
    lemma_distance_scales(other, whole, u);
    let d = distance(other, whole);
    assert(d >= 1 ==> d * u >= u) by (nonlinear_arith)
        requires
            u > 0,
    ;
}

/// A whole number of up to twenty-four binary digits is a single itself.
pub proof fn law_small_whole_numbers_are_singles(whole: int)
    requires
        -0x100_0000 < whole < 0x100_0000,
    ensures
        as_single(whole) == whole,
{
    let n: nat = if whole < 0 {
        (-whole) as nat
    } else {
        whole as nat
    };
    lemma2_to64();
    assert(excess(n) == 0);
    assert(n as int / 1 == n && n as int % 1 == 0);
    assert(rounded(n) == n * 1);
}

/// Twenty added to a whole number is that number and twenty, and no less than zero.
pub proof fn law_whole_numbers_are_raised_exactly(bits: u32, whole: int)
    requires
        stands_for(bits, whole),
        whole + 20 < 0x100_0000,
    ensures
        cut_sum(bits, 20) == if whole + 20 > 0 {
            whole + 20
        } else {
            0
        },
{
    let u = pow2(149) as int;
    lemma2_to64();
    lemma_pow2_pos(149);
    assert(whole * u + 20 * u == (whole + 20) * u) by (nonlinear_arith);
    if whole + 20 <= 0 {
        lemma_sign_scaled(whole + 20, u);
    } else {
        lemma_cut_scaled(whole + 20, 149, 0);
        law_small_whole_numbers_are_singles(whole + 20);
    }
}

/// The pattern with its sign turned stands for the negated value.
proof fn lemma_turned(bits: u32)
    ensures
        ({
            let turned = if bits >= 0x8000_0000 {
                (bits - 0x8000_0000) as u32
            } else {
                (bits + 0x8000_0000) as u32
            };
            &&& exponent(turned) == exponent(bits)
            &&& value(turned) == -value(bits)
            &&& turned % 2 == bits % 2
        }),
{
}

/// The nearest single to a number is, with its sign turned, the nearest to the negated
/// number.
proof fn lemma_nearest_turned(bits: u32, n: int)
    requires
        bits < 0x8000_0000,
        is_nearest(bits, n),
    ensures
        is_nearest((bits + 0x8000_0000) as u32, -n),
        value((bits + 0x8000_0000) as u32) == -value(bits),
{
    lemma_turned(bits);
    assert forall|other: u32| #[trigger] exponent(other) < 0xff implies {
        ||| distance(value((bits + 0x8000_0000) as u32), -n) < distance(value(other), -n)
        ||| value((bits + 0x8000_0000) as u32) == value(other)
        ||| distance(value((bits + 0x8000_0000) as u32), -n) == distance(value(other), -n) && ((bits
            + 0x8000_0000) as u32) % 2 == 0
    } by {
        lemma_turned(other);
        let turned = if other >= 0x8000_0000 {
            (other - 0x8000_0000) as u32
        } else {
            (other + 0x8000_0000) as u32
        };
        assert(exponent(turned) < 0xff);
    }
}

/// The single of a whole number is the nearest to it.
pub(crate) proof fn lemma_whole_is_nearest(whole: int) -> (bits: u32)
    requires
        -0x1_0000_0000_0000_0000 < whole < 0x1_0000_0000_0000_0000,
    ensures
        is_nearest(bits, whole * pow2(149)),
        value(bits) == as_single(whole) * pow2(149),
{
    let u = pow2(149) as int;
    let n: nat = if whole < 0 {
        (-whole) as nat
    } else {
        whole as nat
    };
    lemma2_to64();
    lemma2_to64_rest();
    lemma_pow2_pos(149);
    lemma_pow2_adds(64, 149);
    lemma_pow2_strictly_increases(213, 216);
    assert(0 <= n * u < 0x1_0000_0000_0000_0000 * u) by (nonlinear_arith)
        requires
            0 <= n < 0x1_0000_0000_0000_0000,
            u > 0,
    ;
    lemma_rounded_scales(n, 149);
    crate::position::lemma_pattern_is_nearest((n * u) as nat);
    let plain = pattern(rounded((n * u) as nat) as nat) as u32;
    if whole < 0 {
        lemma_nearest_turned(plain, n * u);
        assert((-n) * u == -(n * u)) by (nonlinear_arith);
        let r = rounded(n);
        assert((-r) * u == -(r * u)) by (nonlinear_arith);
        (plain + 0x8000_0000) as u32
    } else {
        plain
    }
}

/// The level is the sum of a gain and twenty, rounded to the nearest single and cut
/// to a whole number; none below zero and none that 32 bits cannot count is reached. What
/// is no number counts for zero.
pub open spec fn is_twenty_above(level: int, gain: u32) -> bool {
    let unit = pow2(149) as int;
    let sum = value(gain) + 20 * unit;
    if exponent(gain) == 0xff {
        level == if fraction(gain) == 0 && !negative(gain) {
            0xffff_ffffint
        } else {
            0
        }
    } else if sum <= 0 {
        level == 0
    } else if sum >= pow2(216) {
        level == 0xffff_ffff
    } else {
        exists|near: u32| #[trigger]
            is_nearest(near, sum) && {
                ||| level <= 0xffff_ffff && level * unit <= value(near) < (level + 1) * unit
                ||| level == 0xffff_ffff && value(near) >= 0xffff_ffff * unit
            }
    }
}

/// The cut sum is twenty above the gain.
pub(crate) proof fn lemma_cut_sum(gain: u32)
    ensures
        is_twenty_above(cut_sum(gain, 20), gain),
{
    let u = pow2(149) as int;
    let sum = value(gain) + 20 * u;
    lemma2_to64();
    lemma2_to64_rest();
    lemma_pow2_pos(149);
    if exponent(gain) < 0xff && sum > 0 {
        let r = rounded(sum as nat);
        let q = r / u;
        lemma_rounded_bounds(sum as nat);
        vstd::arithmetic::div_mod::lemma_fundamental_div_mod(r, u);
        vstd::arithmetic::div_mod::lemma_mod_bound(r, u);
        assert(q * u == u * q && (q + 1) * u == u * q + u) by (nonlinear_arith);
        if sum >= pow2(216) {
            lemma_pow2_unfold(216);
            lemma_pow2_adds(64, 151);
            lemma_pow2_adds(2, 149);
            assert(q > 0xffff_ffff) by (nonlinear_arith)
                requires
                    r == u * q + r % u,
                    0 <= r % u < u,
                    r >= 0x1_0000_0000_0000_0000 * u,
                    u > 0,
            ;
        } else {
            crate::position::lemma_pattern_is_nearest(sum as nat);
            let near = pattern(r as nat) as u32;
            assert(is_nearest(near, sum));
            if q > 0xffff_ffff {
                assert(r >= 0xffff_ffff * u) by (nonlinear_arith)
                    requires
                        r >= u * q,
                        q > 0xffff_ffff,
                        u > 0,
                ;
            }
        }
    }
}

/// Raised by twenty and cut, a gain is what the single arithmetic makes of it.
pub proof fn law_raised_is_twenty_above(gain: u32, cut: u32)
    requires
        call_ensures(raised_by_twenty, (gain,), cut),
    ensures
        is_twenty_above(cut as int, gain),
{
    lemma_cut_sum(gain);
}

/// A single strays from a whole number if and only if it lies more than a tenth away,
/// the tenth being 13421773 parts of two to the power of 27; an infinity strays, and what
/// is no number does not.
pub proof fn law_straying_is_by_a_tenth(whole: i64, bits: u32, off: bool)
    requires
        call_ensures(strays, (whole, bits), off),
    ensures
        exponent(bits) == 0xff ==> off == (fraction(bits) == 0),
        exponent(bits) < 0xff ==> (off <==> distance(whole * pow2(149), value(bits)) > 13421773
            * pow2(122)),
{
    lemma_tenth();
}

/// The tenth is the nearest that a single comes to it.
pub proof fn law_tenth_is_nearest(other: u32)
    requires
        exponent(other) < 0xff,
    ensures
        distance(10 * value(TENTH), pow2(149) as int) <= distance(
            10 * value(other),
            pow2(149) as int,
        ),
{
    lemma_tenth();
    lemma2_to64();
    lemma_pow2_adds(27, 122);
    lemma_pow2_pos(122);
    let h = pow2(122) as int;
    crate::position::lemma_apart(other, 122, 13421772);
    assert(pow2(149) == 134217728 * h);
    assert((13421772 + 1) * h == 13421773 * h);
}

/// The single made of a whole number is the nearest to it, and has its sign.
pub proof fn law_single_of_is_nearest(whole: i64, bits: u32)
    requires
        call_ensures(single_of, (whole,), bits),
    ensures
        negative(bits) <==> whole < 0,
        exponent(bits) < 0xff,
        exists|near: u32| #[trigger]
            is_nearest(near, whole * pow2(149)) && value(near) == value(bits),
{
    if whole < 0 {
        lemma_rounded_bounds((-whole) as nat);
    } else if whole > 0 {
        lemma_rounded_bounds(whole as nat);
    } else {
        law_small_whole_numbers_are_singles(0);
    }
    let near = lemma_whole_is_nearest(whole as int);
    assert(is_nearest(near, whole * pow2(149)));
}

/// A whole number as a single has the value of the nearest single.
pub proof fn law_whole_single_is_nearest(whole: i64, near: i64)
    requires
        call_ensures(whole_single, (whole,), near),
    ensures
        exists|bits: u32| #[trigger]
            is_nearest(bits, whole * pow2(149)) && value(bits) == near * pow2(149),
{
    let bits = lemma_whole_is_nearest(whole as int);
    assert(is_nearest(bits, whole * pow2(149)));
}

} // verus!
