//! The scales of the meters: which frequency a bar of the spectrum shows, and
//! where the marks of a needle meter stand.

use vstd::prelude::*;
use vstd::arithmetic::power::pow;

verus! {

/// The number of bars in the spectrum.
pub const BARS: usize = 16;

/// The highest bin that a bar may show: the last below the middle of a block.
pub const LAST_BIN: usize = 511;

/// 16 to the power of eleven.
const UNIT: u128 = 17_592_186_044_416;

/// `n` to the power of five.
pub open spec fn fifth(n: int) -> int {
    n * n * n * n * n
}

/// `n` to the power of eleven.
pub open spec fn eleventh(n: int) -> int {
    fifth(n) * fifth(n) * n
}

/// `n` is at most 450 times the power 2.2 of `bar` sixteenths. With both sides
/// raised to the fifth power, that is a comparison of whole numbers.
pub open spec fn at_most_curve(n: int, bar: int) -> bool {
    fifth(n) * eleventh(16) <= fifth(450) * eleventh(bar)
}

/// `n` is 450 times the power 2.2 of `bar` sixteenths, rounded down.
pub open spec fn is_curve(n: int, bar: int) -> bool {
    n >= 0 && at_most_curve(n, bar) && !at_most_curve(n + 1, bar)
}

/// `bin` is the bin that the bar shows: one above the curve, and not above the
/// last bin.
pub open spec fn is_bin(bin: int, bar: int) -> bool {
    exists|n: int| #[trigger]
        is_curve(n, bar) && bin == if n + 1 < LAST_BIN {
            n + 1
        } else {
            LAST_BIN as int
        }
}

/// The fifth power does not fall.
proof fn lemma_fifth_monotone(a: int, b: int)
    requires
        0 <= a <= b,
    ensures
        0 <= fifth(a) <= fifth(b),
{
    assert(0 <= a * a <= b * b) by (nonlinear_arith)
        requires
            0 <= a <= b,
    ;
    assert(0 <= a * a * a <= b * b * b) by (nonlinear_arith)
        requires
            0 <= a <= b,
            0 <= a * a <= b * b,
    ;
    assert(0 <= a * a * a * a <= b * b * b * b) by (nonlinear_arith)
        requires
            0 <= a <= b,
            0 <= a * a * a <= b * b * b,
    ;
    assert(0 <= a * a * a * a * a <= b * b * b * b * b) by (nonlinear_arith)
        requires
            0 <= a <= b,
            0 <= a * a * a * a <= b * b * b * b,
    ;
}

/// The eleventh power does not fall.
proof fn lemma_eleventh_monotone(a: int, b: int)
    requires
        0 <= a <= b,
    ensures
        0 <= eleventh(a) <= eleventh(b),
{
    lemma_fifth_monotone(a, b);
    let p = fifth(a);
    let q = fifth(b);
    assert(0 <= p * p <= q * q) by (nonlinear_arith)
        requires
            0 <= p <= q,
    ;
    assert(0 <= p * p * a <= q * q * b) by (nonlinear_arith)
        requires
            0 <= p * p <= q * q,
            0 <= a <= b,
    ;
}

/// The curve does not fall.
proof fn lemma_curve_monotone(n: int, bar: int, m: int, other: int)
    requires
        is_curve(n, bar),
        is_curve(m, other),
        0 <= bar <= other,
    ensures
        n <= m,
{
    if n > m {
        lemma_fifth_monotone(m + 1, n);
        lemma_eleventh_monotone(bar, other);
        let k = eleventh(16);
        let c = fifth(450);
        assert(k >= 0 && c >= 0) by {
            lemma_eleventh_monotone(0, 16);
            lemma_fifth_monotone(0, 450);
        }
        assert(fifth(m + 1) * k <= fifth(n) * k) by (nonlinear_arith)
            requires
                fifth(m + 1) <= fifth(n),
                k >= 0,
        ;
        assert(c * eleventh(bar) <= c * eleventh(other)) by (nonlinear_arith)
            requires
                eleventh(bar) <= eleventh(other),
                c >= 0,
        ;
    }
}

/// `n` to the power of five, in machine integers.
fn fifth_power(n: u128) -> (power: u128)
    requires
        n <= 450,
    ensures
        power == fifth(n as int),
{
    proof {
        lemma_fifth_monotone(n as int, 450);
        let m = n as int;
        assert(m * m <= 450 * 450) by (nonlinear_arith)
            requires
                0 <= m <= 450,
        ;
        assert(m * m * m <= 450 * 450 * 450) by (nonlinear_arith)
            requires
                0 <= m <= 450,
                0 <= m * m <= 450 * 450,
        ;
        assert(m * m * m * m <= 450 * 450 * 450 * 450) by (nonlinear_arith)
            requires
                0 <= m <= 450,
                m * m * m <= 450 * 450 * 450,
        ;
    }
    n * n * n * n * n
}

/// Whether the fifth power of `n`, in the curve's unit, is at most `reach`.
fn lies_below(n: usize, reach: u128) -> (yes: bool)
    requires
        n <= 450,
    ensures
        yes == (fifth(n as int) * UNIT <= reach),
{
    proof {
        lemma_fifth_monotone(n as int, 450);
        assert(fifth(450) == 18452812500000);
    }
    fifth_power(n as u128) * UNIT <= reach
}

/// The bin of a block's transform that a bar of the spectrum shows.
pub fn spectrum_bin(bar: usize) -> (bin: usize)
    requires
        bar < BARS,
    ensures
        is_bin(bin as int, bar as int),
{
    let high: u128 = fifth_power(450);
    let b: u128 = fifth_power(bar as u128);
    proof {
        lemma_fifth_monotone(bar as int, 15);
        lemma_eleventh_monotone(bar as int, 15);
        assert(fifth(15) == 759375);
        assert(fifth(450) == 18452812500000);
        assert(b * b <= 759375 * 759375) by (nonlinear_arith)
            requires
                b <= 759375,
        ;
        assert(b * b * bar <= 759375 * 759375 * 15) by (nonlinear_arith)
            requires
                0 <= b * b <= 759375 * 759375,
                bar <= 15,
        ;
    }
    let power: u128 = b * b * (bar as u128);
    let reach: u128 = high * power;
    let mut n: usize = 0;
    proof {
        assert(fifth(16) == 1048576);
        assert(eleventh(16) == UNIT);
    }
    while n < 449 && lies_below(n + 1, reach)
        invariant
            n <= 449,
            reach == fifth(450) * eleventh(bar as int),
            eleventh(16) == UNIT,
            at_most_curve(n as int, bar as int),
        decreases 449 - n,
    {
        n = n + 1;
    }
    proof {
        if n == 449 {
            lemma_eleventh_monotone(bar as int, 15);
            assert(eleventh(15) < eleventh(16));
        }
        assert(is_curve(n as int, bar as int));
    }
    if n + 1 < LAST_BIN {
        n + 1
    } else {
        LAST_BIN
    }
}

/// The curve at each bar.
pub open spec fn curve_table() -> Seq<int> {
    seq![0, 1, 4, 11, 21, 34, 52, 73, 97, 126, 160, 197, 238, 284, 335, 390]
}

/// The table holds the curve.
proof fn lemma_curve_table(bar: int)
    requires
        0 <= bar < BARS,
    ensures
        is_curve(curve_table()[bar], bar),
{
    assert(fifth(450) == 18452812500000);
    assert(fifth(16) == 1048576);
    if bar == 0 {
        assert(fifth(0) == 0);
        assert(fifth(1) == 1);
    }
    if bar == 1 {
        assert(fifth(1) == 1);
        assert(fifth(2) == 32);
    }
    if bar == 2 {
        assert(fifth(2) == 32);
        assert(fifth(4) == 1024);
        assert(fifth(5) == 3125);
    }
    if bar == 3 {
        assert(fifth(3) == 243);
        assert(fifth(11) == 161051);
        assert(fifth(12) == 248832);
    }
    if bar == 4 {
        assert(fifth(4) == 1024);
        assert(fifth(21) == 4084101);
        assert(fifth(22) == 5153632);
    }
    if bar == 5 {
        assert(fifth(5) == 3125);
        assert(fifth(34) == 45435424);
        assert(fifth(35) == 52521875);
    }
    if bar == 6 {
        assert(fifth(6) == 7776);
        assert(fifth(52) == 380204032);
        assert(fifth(53) == 418195493);
    }
    if bar == 7 {
        assert(fifth(7) == 16807);
        assert(fifth(73) == 2073071593);
        assert(fifth(74) == 2219006624);
    }
    if bar == 8 {
        assert(fifth(8) == 32768);
        assert(fifth(97) == 8587340257);
        assert(fifth(98) == 9039207968);
    }
    if bar == 9 {
        assert(fifth(9) == 59049);
        assert(fifth(126) == 31757969376);
        assert(fifth(127) == 33038369407);
    }
    if bar == 10 {
        assert(fifth(10) == 100000);
        assert(fifth(160) == 104857600000);
        assert(fifth(161) == 108175616801);
    }
    if bar == 11 {
        assert(fifth(11) == 161051);
        assert(fifth(197) == 296709280757);
        assert(fifth(198) == 304316815968);
    }
    if bar == 12 {
        assert(fifth(12) == 248832);
        assert(fifth(238) == 763633171168);
        assert(fifth(239) == 779811265199);
    }
    if bar == 13 {
        assert(fifth(13) == 371293);
        assert(fifth(284) == 1847530855424);
        assert(fifth(285) == 1880287678125);
    }
    if bar == 14 {
        assert(fifth(14) == 537824);
        assert(fifth(335) == 4219140959375);
        assert(fifth(336) == 4282490290176);
    }
    if bar == 15 {
        assert(fifth(15) == 759375);
        assert(fifth(390) == 9022419900000);
        assert(fifth(391) == 9138686662951);
    }
}

/// A bar shows one bin only.
pub proof fn law_bar_has_one_bin(bar: int, bin: int, other: int)
    requires
        bar >= 0,
        is_bin(bin, bar),
        is_bin(other, bar),
    ensures
        bin == other,
{
    let n = choose|n: int| #[trigger]
        is_curve(n, bar) && bin == if n + 1 < LAST_BIN {
            n + 1
        } else {
            LAST_BIN as int
        };
    let m = choose|n: int| #[trigger]
        is_curve(n, bar) && other == if n + 1 < LAST_BIN {
            n + 1
        } else {
            LAST_BIN as int
        };
    lemma_curve_monotone(n, bar, m, bar);
    lemma_curve_monotone(m, bar, n, bar);
}

/// A bar shows the bin one above the curve; the limit at the last bin is not
/// reached.
pub proof fn law_bins_follow_the_curve(bar: int, bin: int)
    requires
        0 <= bar < BARS,
        is_bin(bin, bar),
    ensures
        bin == curve_table()[bar] + 1,
        1 <= bin < LAST_BIN,
{
    lemma_curve_table(bar);
    assert(is_bin(curve_table()[bar] + 1, bar));
    law_bar_has_one_bin(bar, bin, curve_table()[bar] + 1);
}

/// Every bar shows a bin of its own, and higher bars show higher bins.
pub proof fn law_higher_bars_show_higher_bins(bar: int, bin: int, other: int, other_bin: int)
    requires
        0 <= bar < other < BARS,
        is_bin(bin, bar),
        is_bin(other_bin, other),
    ensures
        bin < other_bin,
{
    law_bins_follow_the_curve(bar, bin);
    law_bins_follow_the_curve(other, other_bin);
}

/// Where the scale of a needle meter begins, in degrees.
pub const DIAL_START: u32 = 220;

/// How far the scale of a needle meter reaches, in degrees.
pub const DIAL_SWEEP: u32 = 100;

/// Where a point of the scale's arc stands, in degrees: one every two degrees.
pub open spec fn arc_at(i: int) -> int {
    DIAL_START + 2 * i
}

/// Where a mark of the scale stands, in degrees: one every ten degrees.
pub open spec fn tick_at(i: int) -> int {
    DIAL_START + 10 * i
}

/// The numbers rise evenly from the first to the last.
pub open spec fn rises_by(marks: Seq<u32>, stride: int) -> bool {
    forall|i: int| 0 <= i < marks.len() ==> #[trigger] marks[i] == marks[0] + stride * i
}

/// The points of the scale's arc, in degrees.
pub fn arc_degrees() -> (points: Vec<u32>)
    ensures
        rises_by(points@, 2),
        points@[0] == DIAL_START,
        points@.len() == 51,
        forall|i: int| 0 <= i < 51 ==> #[trigger] points@[i] == arc_at(i),
{
    let mut points: Vec<u32> = Vec::new();
    let mut i: u32 = 0;
    while i < 51
        invariant
            i <= 51,
            points@.len() == i,
            forall|k: int| 0 <= k < i ==> #[trigger] points@[k] == arc_at(k),
        decreases 51 - i,
    {
        points.push(DIAL_START + 2 * i);
        i = i + 1;
    }
    points
}

/// The marks of the scale, in degrees.
pub fn tick_degrees() -> (marks: Vec<u32>)
    ensures
        rises_by(marks@, 10),
        marks@[0] == DIAL_START,
        marks@.len() == 11,
        forall|i: int| 0 <= i < 11 ==> #[trigger] marks@[i] == tick_at(i),
{
    let mut marks: Vec<u32> = Vec::new();
    let mut i: u32 = 0;
    while i < 11
        invariant
            i <= 11,
            marks@.len() == i,
            forall|k: int| 0 <= k < i ==> #[trigger] marks@[k] == tick_at(k),
        decreases 11 - i,
    {
        marks.push(DIAL_START + 10 * i);
        i = i + 1;
    }
    marks
}

/// Every mark stands on a point of the arc, and marks and arc both span the
/// whole scale.
pub proof fn law_marks_stand_on_the_arc(i: int)
    requires
        0 <= i < 11,
    ensures
        0 <= 5 * i < 51,
        tick_at(i) == arc_at(5 * i),
        tick_at(0) == arc_at(0) == DIAL_START,
        tick_at(10) == arc_at(50) == DIAL_START + DIAL_SWEEP,
{
}

/// The powers of five and eleven are powers.
proof fn lemma_powers(n: int)
    ensures
        pow(n, 5) == fifth(n),
        pow(n, 11) == eleventh(n),
{
    reveal(pow);
    reveal_with_fuel(pow, 12);
    assert(pow(n, 1) == n);
    assert(pow(n, 5) == n * (n * (n * (n * n))));
    assert(n * (n * (n * (n * n))) == n * n * n * n * n) by (nonlinear_arith);
    let p = pow(n, 5);
    assert(pow(n, 11) == n * (n * (n * (n * (n * (n * p))))));
    assert(n * (n * (n * (n * (n * (n * p))))) == (n * n * n * n * n) * p * n) by (nonlinear_arith);
}

/// The bin that a bar shows is the first above 450 times the power 2.2 of the bar's place
/// among sixteen. In fifth powers: the curve to the power of five is 450 to the power of five
/// times the eleventh power of the place; the bin's is above, and that of the bin before
/// is not.
pub proof fn law_bin_is_first_above_the_curve(bar: usize, bin: usize)
    requires
        bar < 16,
        call_ensures(spectrum_bin, (bar,), bin),
    ensures
        1 <= bin <= 511,
        pow(bin - 1, 5) * pow(16, 11) <= pow(450, 5) * pow(bar as int, 11),
        pow(450, 5) * pow(bar as int, 11) < pow(bin as int, 5) * pow(16, 11),
{
    law_bins_follow_the_curve(bar as int, bin as int);
    lemma_curve_table(bar as int);
    lemma_powers(bin - 1);
    lemma_powers(bin as int);
    lemma_powers(16);
    lemma_powers(450);
    lemma_powers(bar as int);
}

/// The arc of a needle meter has 51 points, two degrees apart, from 220 to 320 degrees.
pub proof fn law_arc_spans_the_dial(points: Vec<u32>, i: int)
    requires
        call_ensures(arc_degrees, (), points),
        0 <= i < 50,
    ensures
        points@.len() == 51,
        points@[0] == 220,
        points@[50] == 320,
        points@[i + 1] == points@[i] + 2,
{
    assert(rises_by(points@, 2));
}

/// A needle meter has 11 marks, ten degrees apart, from 220 to 320 degrees.
pub proof fn law_marks_span_the_dial(marks: Vec<u32>, i: int)
    requires
        call_ensures(tick_degrees, (), marks),
        0 <= i < 10,
    ensures
        marks@.len() == 11,
        marks@[0] == 220,
        marks@[10] == 320,
        marks@[i + 1] == marks@[i] + 10,
{
    assert(rises_by(marks@, 10));
}

} // verus!
