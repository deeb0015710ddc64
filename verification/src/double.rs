//! Doubles as integers: reading them from decimal numbers, comparing and subtracting them.

use crate::decimal::{
    digits_of_number, magnitude_at_most, sum_in, times_digits, Decimal, DecimalView,
};
use vstd::arithmetic::power::*;
use vstd::prelude::*;

verus! {

// ---------------------------------------------------------------------------
// The doubles that are not negative
// ---------------------------------------------------------------------------

/// The bits of the double 2^-1022, the least normal one: the weight of the exponent field.
pub const NORMAL: u64 = 4_503_599_627_370_496;

/// The bits of infinity.
pub const INFINITE: u64 = 9_218_868_437_227_405_312;

/// The significand of the double with these bits.
pub open spec fn significand(bits: int) -> int {
    if bits < NORMAL {
        bits
    } else {
        NORMAL + bits % (NORMAL as int)
    }
}

/// The power of two by which the significand counts more than the least double.
pub open spec fn shift(bits: int) -> nat {
    if bits < NORMAL {
        0
    } else {
        (bits / (NORMAL as int) - 1) as nat
    }
}

/// The value of the double with these bits, in units of 2^-1074, the least double. Infinity
/// counts as 2^1024, the number that follows the greatest double.
pub open spec fn units(bits: int) -> int {
    significand(bits) * pow(2, shift(bits))
}

/// The number half way between a double and the next one, in units of 2^-1075.
pub open spec fn edge(bits: int) -> int {
    units(bits) + units(bits + 1)
}

/// `bits` are those of the double nearest to `x / k`, in units of 2^-1075; half way between two
/// doubles it is the one with even bits.
pub open spec fn is_nearest(x: int, k: int, bits: int) -> bool {
    &&& 0 <= bits <= INFINITE
    &&& bits > 0 ==> edge(bits - 1) * k < x || (edge(bits - 1) * k == x && bits % 2 == 0)
    &&& bits < INFINITE ==> x < edge(bits) * k || (edge(bits) * k == x && bits % 2 == 0)
}

/// The bits of the double nearest to `x / k`, in units of 2^-1075.
pub open spec fn nearest(x: int, k: int) -> int {
    choose|bits: int| is_nearest(x, k, bits)
}

proof fn lemma_next_units(bits: int)
    requires
        0 <= bits,
    ensures
        units(bits + 1) == (significand(bits) + 1) * pow(2, shift(bits)),
        edge(bits) == (2 * significand(bits) + 1) * pow(2, shift(bits)),
        units(bits) < units(bits + 1),
        pow(2, shift(bits)) > 0,
        significand(bits) >= 0,
{
    let n = NORMAL as int;
    let p = pow(2, shift(bits));
    lemma_pow_positive(2, shift(bits));
    if bits + 1 > n {
        let e = bits / n;
        let f = bits % n;
        assert(bits == n * e + f);
        assert(e >= 1);
        if f + 1 < n {
            assert((bits + 1) / n == e && (bits + 1) % n == f + 1);
        } else {
            assert((bits + 1) / n == e + 1 && (bits + 1) % n == 0);
            reveal(pow);
            assert(shift(bits + 1) == shift(bits) + 1);
            assert(pow(2, shift(bits + 1)) == 2 * p);
            assert(n * (2 * p) == (2 * n) * p) by (nonlinear_arith);
        }
    }
    let m = significand(bits);
    assert((m + 1) * p == m * p + p && (2 * m + 1) * p == m * p + (m + 1) * p)
        by (nonlinear_arith);
}

proof fn lemma_units_grow(a: int, b: int)
    requires
        0 <= a < b,
    ensures
        units(a) < units(b),
        edge(a) < edge(b),
    decreases b - a,
{
    lemma_next_units(b - 1);
    lemma_next_units(b);
    if a < b - 1 {
        lemma_units_grow(a, b - 1);
    }
}

proof fn lemma_units_start()
    ensures
        units(0) == 0,
        edge(0) == 1,
{
    lemma_pow0(2);
}

/// The nearest double is at least the one with bits `p` where the number lies beyond the edge
/// below that one.
proof fn lemma_nearest_from(x: int, k: int, bits: int, p: int)
    requires
        k > 0,
        is_nearest(x, k, bits),
        0 < p <= INFINITE,
    ensures
        bits >= p <==> edge(p - 1) * k < x || (edge(p - 1) * k == x && p % 2 == 0),
{
    if bits >= p {
        if bits > p {
            lemma_units_grow(p - 1, bits - 1);
            let a = edge(p - 1);
            let b = edge(bits - 1);
            assert(a * k < b * k) by (nonlinear_arith)
                requires
                    a < b,
                    k > 0,
            ;
        }
    } else {
        if bits < p - 1 {
            lemma_units_grow(bits, p - 1);
            let a = edge(bits);
            let b = edge(p - 1);
            assert(a * k < b * k) by (nonlinear_arith)
                requires
                    a < b,
                    k > 0,
            ;
        }
    }
}

/// There is only one nearest double.
proof fn lemma_nearest_unique(x: int, k: int, bits: int)
    requires
        k > 0,
        is_nearest(x, k, bits),
    ensures
        nearest(x, k) == bits,
{
    let other = nearest(x, k);
    assert(is_nearest(x, k, other));
    if other > 0 {
        lemma_nearest_from(x, k, bits, other);
        lemma_nearest_from(x, k, other, other);
    }
    if bits > 0 {
        lemma_nearest_from(x, k, bits, bits);
        lemma_nearest_from(x, k, other, bits);
    }
}

proof fn lemma_nearest_found(x: int, k: int, from: int)
    requires
        k > 0,
        0 <= from <= INFINITE,
        from > 0 ==> edge(from - 1) * k < x,
    ensures
        is_nearest(x, k, nearest(x, k)),
    decreases INFINITE - from,
{
    if from == INFINITE || x < edge(from) * k || (x == edge(from) * k && from % 2 == 0) {
        assert(is_nearest(x, k, from));
    } else if x == edge(from) * k {
        lemma_units_grow(from, from + 1);
        let a = edge(from);
        let b = edge(from + 1);
        assert(a * k < b * k) by (nonlinear_arith)
            requires
                a < b,
                k > 0,
        ;
        assert(is_nearest(x, k, from + 1));
    } else {
        lemma_nearest_found(x, k, from + 1);
    }
}

/// Every number has a nearest double.
proof fn lemma_nearest_exists(x: int, k: int)
    requires
        k > 0,
    ensures
        is_nearest(x, k, nearest(x, k)),
{
    lemma_nearest_found(x, k, 0);
}

/// The unit does not matter.
proof fn lemma_nearest_scaled(x: int, k: int, g: int, bits: int)
    requires
        k > 0,
        g > 0,
        is_nearest(x * g, k * g, bits),
    ensures
        is_nearest(x, k, bits),
{
    if bits > 0 {
        let a = edge(bits - 1);
        assert(a * (k * g) < x * g <==> a * k < x) by (nonlinear_arith)
            requires
                g > 0,
        ;
        assert(a * (k * g) == x * g <==> a * k == x) by (nonlinear_arith)
            requires
                g > 0,
        ;
    }
    let b = edge(bits);
    assert(x * g < b * (k * g) <==> x < b * k) by (nonlinear_arith)
        requires
            g > 0,
    ;
    assert(b * (k * g) == x * g <==> b * k == x) by (nonlinear_arith)
        requires
            g > 0,
    ;
}

// ---------------------------------------------------------------------------
// Doubles
// ---------------------------------------------------------------------------

/// A double that is a number, or infinity: its sign, and the bits of its absolute value.
pub struct DoubleView {
    pub negative: bool,
    pub bits: int,
}

impl DoubleView {
    /// The value, in units of 2^-1074.
    pub open spec fn value(self) -> int {
        if self.negative {
            -units(self.bits)
        } else {
            units(self.bits)
        }
    }
}

/// A unit in which `d` and 2^-1075 are whole: ten to this power.
pub open spec fn deep_unit(d: DecimalView) -> int {
    if d.exponent <= -1075 {
        d.exponent
    } else {
        -1075
    }
}

/// 2^-1075 in units of ten to the power of `unit`, which is at most -1075.
pub open spec fn grain(unit: int) -> int {
    pow(5, 1075) * pow(10, (-1075 - unit) as nat)
}

/// The double that a decimal number is read as: the nearest one.
pub open spec fn double_of(d: DecimalView) -> DoubleView {
    DoubleView {
        negative: d.negative,
        bits: nearest(crate::decimal::magnitude_in(d, deep_unit(d)), grain(deep_unit(d))),
    }
}

/// The difference of two doubles: the double nearest to it.
pub open spec fn minus(a: DoubleView, b: DoubleView) -> DoubleView {
    let diff = a.value() - b.value();
    DoubleView {
        negative: diff < 0,
        bits: nearest(
            2 * (if diff < 0 {
                -diff
            } else {
                diff
            }),
            1,
        ),
    }
}

/// The double 1e-9: how far a recall may fall short of a target.
pub open spec fn slack() -> DoubleView {
    double_of(DecimalView { negative: false, digits: seq!['1'], exponent: -9 })
}

/// The recall that counts as reaching the target: the target less 1e-9, in doubles.
pub open spec fn threshold(target: DecimalView) -> DoubleView {
    minus(double_of(target), slack())
}

/// A recall reaches a target: as doubles, it is at least the target less 1e-9.
pub open spec fn reaches(recall: DecimalView, target: DecimalView) -> bool {
    double_of(recall).value() >= threshold(target).value()
}

/// A double that is a number, or infinity.
pub struct Double {
    pub negative: bool,
    pub bits: u64,
}

impl View for Double {
    type V = DoubleView;

    open spec fn view(&self) -> DoubleView {
        DoubleView { negative: self.negative, bits: self.bits as int }
    }
}

proof fn lemma_grain_positive(unit: int)
    ensures
        grain(unit) > 0,
{
    lemma_pow_positive(5, 1075);
    lemma_pow_positive(10, (-1075 - unit) as nat);
    let p = pow(5, 1075);
    let q = pow(10, (-1075 - unit) as nat);
    assert(p * q > 0) by (nonlinear_arith)
        requires
            p > 0,
            q > 0,
    ;
}

/// The value in a smaller unit of a number that is `n` times 2^-1075.
proof fn lemma_grains(d: DecimalView, n: int, unit: int)
    requires
        !d.negative,
        d.exponent >= -1075,
        crate::decimal::magnitude_in(d, -1075) == n * pow(5, 1075),
        unit <= -1075,
    ensures
        crate::decimal::magnitude_in(d, unit) == n * grain(unit),
{
    let m = (-1075 - unit) as nat;
    crate::decimal::lemma_value_rescaled(d, -1075, m);
    assert(-1075 - m == unit);
    let p = pow(5, 1075);
    let q = pow(10, m);
    assert((n * p) * q == n * (p * q)) by (nonlinear_arith);
}

/// The digits of a number times `k` to the power of `count`.
fn times_power(digits: Vec<char>, k: u64, count: u32) -> (res: Vec<char>)
    requires
        crate::decimal::all_digits(digits@),
        0 < k <= 5,
    ensures
        crate::decimal::all_digits(res@),
        crate::decimal::nat_of(res@) == crate::decimal::nat_of(digits@) * pow(
            k as int,
            count as nat,
        ),
{
    let ghost x = crate::decimal::nat_of(digits@) as int;
    let mut out = digits;
    let mut done: u32 = 0;
    proof {
        lemma_pow0(k as int);
        assert(x * 1 == x) by (nonlinear_arith);
    }
    while done < count
        invariant
            0 < k <= 5,
            done <= count,
            crate::decimal::all_digits(out@),
            crate::decimal::nat_of(out@) == x * pow(k as int, done as nat),
        decreases count - done,
    {
        // Several factors at once, as many as fit.
        let ghost before = done;
        let mut factor: u64 = 1;
        let mut n: u32 = 0;
        proof {
            lemma_pow0(k as int);
            lemma_pow0(5);
        }
        while n < 13 && done < count
            invariant
                0 < k <= 5,
                n <= 13,
                done == before + n,
                before <= done <= count,
                factor == pow(k as int, n as nat),
                0 < factor,
                factor <= pow(5, n as nat),
                n == 0 ==> done < count,
            decreases count - done,
        {
            proof {
                reveal(pow);
                let p = pow(k as int, n as nat);
                let q = pow(5, n as nat);
                assert(pow(k as int, (n + 1) as nat) == k * p);
                assert(pow(5, (n + 1) as nat) == 5 * q);
                assert(k * p <= 5 * q && 0 < k * p) by (nonlinear_arith)
                    requires
                        0 < k <= 5,
                        0 < p <= q,
                ;
                lemma_pow_increases(5, (n + 1) as nat, 13);
                lemma_five_to_thirteen();
                assert(factor * k == k * factor) by (nonlinear_arith);
            }
            factor = factor * k;
            n += 1;
            done += 1;
        }
        proof {
            lemma_pow_increases(5, n as nat, 13);
            lemma_five_to_thirteen();
            lemma_pow_adds(k as int, before as nat, n as nat);
            let p = pow(k as int, before as nat);
            let f = factor as int;
            assert(f * (x * p) == x * (p * f)) by (nonlinear_arith);
        }
        out = times_digits(&out, factor);
    }
    out
}

proof fn lemma_five_to_thirteen()
    ensures
        pow(5, 13) == 1_220_703_125,
{
    reveal_with_fuel(pow, 14);
}

/// The decimal number `m` times 2 to the power of `q`.
fn dyadic(m: u64, q: i32) -> (res: Decimal)
    requires
        -1075 <= q <= 1000,
    ensures
        res.wf(),
        !res.negative,
        -1075 <= res.exponent <= 0,
        crate::decimal::magnitude_in(res@, -1075) == (m * pow(2, (q + 1075) as nat)) * pow(5, 1075),
{
    let (k, count, exponent): (u64, u32, i128) = if q < 0 {
        (5, (-q) as u32, q as i128)
    } else {
        (2, q as u32, 0)
    };
    let digits = times_power(digits_of_number(m), k, count);
    let res = Decimal { negative: false, digits, exponent };
    proof {
        let x = m as int;
        if q < 0 {
            let n = (q + 1075) as nat;
            lemma_pow_distributes(2, 5, n);
            lemma_pow_adds(5, (-q) as nat, n);
            assert((-q) as nat + n == 1075);
            let a = pow(5, (-q) as nat);
            let b = pow(2, n);
            let c = pow(5, n);
            assert((x * a) * (b * c) == (x * b) * (a * c)) by (nonlinear_arith);
        } else {
            lemma_pow_distributes(2, 5, 1075);
            lemma_pow_adds(2, q as nat, 1075);
            let a = pow(2, q as nat);
            let b = pow(2, 1075);
            let c = pow(5, 1075);
            assert((x * a) * (b * c) == (x * (a * b)) * c) by (nonlinear_arith);
        }
    }
    res
}

/// The significand and the shift of a double.
fn parts(bits: u64) -> (res: (u64, u32))
    requires
        bits <= INFINITE,
    ensures
        res.0 == significand(bits as int),
        res.0 < 2 * NORMAL,
        res.1 == shift(bits as int),
        res.1 <= 2046,
{
    if bits < NORMAL {
        (bits, 0)
    } else {
        (NORMAL + bits % NORMAL, (bits / NORMAL - 1) as u32)
    }
}

/// The absolute value of a double, as a decimal number.
fn decimal_of(bits: u64) -> (res: Decimal)
    requires
        bits <= INFINITE,
    ensures
        res.wf(),
        !res.negative,
        -1075 <= res.exponent <= 0,
        crate::decimal::magnitude_in(res@, -1075) == (2 * units(bits as int)) * pow(5, 1075),
{
    let (m, s) = parts(bits);
    let res = dyadic(m, s as i32 - 1074);
    proof {
        reveal(pow);
        let p = pow(2, s as nat);
        assert(pow(2, (s + 1) as nat) == 2 * p);
        assert(m * (2 * p) == 2 * (m * p)) by (nonlinear_arith);
    }
    res
}

/// The edge between a double and the next one, as a decimal number.
fn edge_of(bits: u64) -> (res: Decimal)
    requires
        bits < INFINITE,
    ensures
        res.wf(),
        !res.negative,
        -1075 <= res.exponent <= 0,
        crate::decimal::magnitude_in(res@, -1075) == edge(bits as int) * pow(5, 1075),
{
    let (m, s) = parts(bits);
    proof {
        lemma_next_units(bits as int);
        assert(bits / NORMAL <= 2046) by (nonlinear_arith)
            requires
                bits < INFINITE,
        ;
    }
    dyadic(2 * m + 1, s as i32 - 1075)
}

/// The lower unit of the two, and at most -1075.
spec fn lowest_unit(a: DecimalView, c: DecimalView) -> int {
    if a.exponent <= deep_unit(c) {
        a.exponent
    } else {
        deep_unit(c)
    }
}

/// How the absolute value of `a` less that of `c` lies to the edge behind a double: whether it
/// is beyond it, and whether it is on it.
fn beside_edge(a: &Decimal, c: &Decimal, bits: u64) -> (res: (bool, bool))
    requires
        a.wf(),
        c.wf(),
        crate::decimal::fits_double(a@),
        crate::decimal::fits_double(c@),
        bits < INFINITE,
    ensures
        ({
            let u = lowest_unit(a@, c@);
            let x = crate::decimal::magnitude_in(a@, u) - crate::decimal::magnitude_in(c@, u);
            &&& res.0 == (edge(bits as int) * grain(u) < x)
            &&& res.1 == (edge(bits as int) * grain(u) == x)
        }),
{
    let e = edge_of(bits);
    let mut unit: i128 = -1075;
    if c.exponent < unit {
        unit = c.exponent;
    }
    if a.exponent < unit {
        unit = a.exponent;
    }
    let sum = sum_in(c, &e, unit);
    proof {
        assert(unit == lowest_unit(a@, c@));
        lemma_grains(e@, edge(bits as int), unit as int);
        assert(crate::decimal::common_unit(a@, sum@) == unit);
        assert(crate::decimal::common_unit(sum@, a@) == unit);
    }
    let up = magnitude_at_most(a, &sum);
    let down = magnitude_at_most(&sum, a);
    (!up, up && down)
}

/// The bits of the double nearest to the absolute value of `a` less that of `c`.
fn nearest_bits(a: &Decimal, c: &Decimal) -> (res: u64)
    requires
        a.wf(),
        c.wf(),
        crate::decimal::fits_double(a@),
        crate::decimal::fits_double(c@),
    ensures
        ({
            let u = lowest_unit(a@, c@);
            let x = crate::decimal::magnitude_in(a@, u) - crate::decimal::magnitude_in(c@, u);
            is_nearest(x, grain(u), res as int)
        }),
{
    let ghost u = lowest_unit(a@, c@);
    let ghost x = crate::decimal::magnitude_in(a@, u) - crate::decimal::magnitude_in(c@, u);
    let ghost k = grain(u);
    let mut low: u64 = 0;
    let mut high: u64 = INFINITE;
    while low < high
        invariant
            a.wf(),
            c.wf(),
            crate::decimal::fits_double(a@),
            crate::decimal::fits_double(c@),
            u == lowest_unit(a@, c@),
            x == crate::decimal::magnitude_in(a@, u) - crate::decimal::magnitude_in(c@, u),
            k == grain(u),
            low <= high <= INFINITE,
            low > 0 ==> edge(low - 1) * k < x,
            high < INFINITE ==> x <= edge(high as int) * k,
        decreases high - low,
    {
        let mid: u64 = low + (high - low) / 2;
        let (beyond, _on) = beside_edge(a, c, mid);
        if beyond {
            low = mid + 1;
        } else {
            high = mid;
        }
    }
    proof {
        lemma_grain_positive(u);
    }
    if low == INFINITE {
        return low;
    }
    let (_beyond, on) = beside_edge(a, c, low);
    if on && low % 2 == 1 {
        proof {
            lemma_units_grow(low as int, low + 1);
            let p = edge(low as int);
            let q = edge(low + 1);
            assert(p * k < q * k) by (nonlinear_arith)
                requires
                    p < q,
                    k > 0,
            ;
        }
        low + 1
    } else {
        low
    }
}

/// Zero.
fn zero() -> (res: Decimal)
    ensures
        res.wf(),
        res.exponent == 0,
        crate::decimal::nat_of(res.digits@) == 0,
{
    let digits = digits_of_number(0);
    Decimal { negative: false, digits, exponent: 0 }
}

proof fn lemma_nothing(d: DecimalView, unit: int)
    requires
        crate::decimal::nat_of(d.digits) == 0,
    ensures
        crate::decimal::magnitude_in(d, unit) == 0,
{
    let p = pow(10, (d.exponent - unit) as nat);
    assert(0 * p == 0) by (nonlinear_arith);
}

impl Double {
    /// A double is a number, or infinity.
    pub open spec fn wf(&self) -> bool {
        self.bits <= INFINITE
    }

    /// The double that a decimal number is read as.
    pub fn of(d: &Decimal) -> (res: Double)
        requires
            d.wf(),
            crate::decimal::fits_double(d@),
        ensures
            res.wf(),
            res@ == double_of(d@),
    {
        if d.is_zero() {
            proof {
                let u = deep_unit(d@);
                lemma_nothing(d@, u);
                lemma_grain_positive(u);
                lemma_units_start();
                lemma_nearest_unique(0, grain(u), 0);
            }
            return Double { negative: d.negative, bits: 0 };
        }
        let nothing = zero();
        let bits = nearest_bits(d, &nothing);
        proof {
            let u = deep_unit(d@);
            assert(u == lowest_unit(d@, nothing@));
            lemma_nothing(nothing@, u);
            lemma_grain_positive(u);
            lemma_nearest_unique(
                crate::decimal::magnitude_in(d@, u),
                grain(u),
                bits as int,
            );
        }
        Double { negative: d.negative, bits }
    }

    /// The difference of two doubles.
    pub fn minus(&self, other: &Double) -> (res: Double)
        requires
            self.wf(),
            other.wf(),
        ensures
            res.wf(),
            res@ == minus(self@, other@),
    {
        let a = decimal_of(self.bits);
        let b = decimal_of(other.bits);
        let ghost x = units(self.bits as int);
        let ghost y = units(other.bits as int);
        let ghost g = pow(5, 1075);
        proof {
            lemma_pow_positive(5, 1075);
            lemma_pow0(10);
            assert(grain(-1075) == g) by {
                assert(g * 1 == g) by (nonlinear_arith);
            }
            if self.bits < other.bits {
                lemma_units_grow(self.bits as int, other.bits as int);
            }
            if other.bits < self.bits {
                lemma_units_grow(other.bits as int, self.bits as int);
            }
            lemma_units_sign(self.bits as int);
            lemma_units_sign(other.bits as int);
            assert((2 * x) * g - (2 * y) * g == (2 * (x - y)) * g) by (nonlinear_arith);
            assert((2 * y) * g - (2 * x) * g == (2 * (y - x)) * g) by (nonlinear_arith);
            assert((2 * x) * g + (2 * y) * g == (2 * (x + y)) * g) by (nonlinear_arith);
        }
        if self.negative == other.negative {
            if self.bits >= other.bits {
                let bits = nearest_bits(&a, &b);
                proof {
                    lemma_nearest_scaled(2 * (x - y), 1, g, bits as int);
                    lemma_nearest_unique(2 * (x - y), 1, bits as int);
                }
                Double { negative: self.negative && self.bits != other.bits, bits }
            } else {
                let bits = nearest_bits(&b, &a);
                proof {
                    lemma_nearest_scaled(2 * (y - x), 1, g, bits as int);
                    lemma_nearest_unique(2 * (y - x), 1, bits as int);
                }
                Double { negative: !self.negative, bits }
            }
        } else {
            let sum = sum_in(&a, &b, -1075);
            let nothing = zero();
            let bits = nearest_bits(&sum, &nothing);
            proof {
                lemma_nothing(nothing@, -1075);
                assert(lowest_unit(sum@, nothing@) == -1075);
                lemma_nearest_scaled(2 * (x + y), 1, g, bits as int);
                lemma_nearest_unique(2 * (x + y), 1, bits as int);
            }
            Double { negative: self.negative && !(self.bits == 0 && other.bits == 0), bits }
        }
    }
}

impl Double {
    /// Whether this double is at most the other one.
    pub fn is_at_most(&self, other: &Double) -> (res: bool)
        ensures
            res == (self@.value() <= other@.value()),
    {
        proof {
            lemma_units_sign(self.bits as int);
            lemma_units_sign(other.bits as int);
            if self.bits < other.bits {
                lemma_units_grow(self.bits as int, other.bits as int);
            }
            if other.bits < self.bits {
                lemma_units_grow(other.bits as int, self.bits as int);
            }
        }
        if self.negative {
            if other.negative {
                other.bits <= self.bits
            } else {
                true
            }
        } else if other.negative {
            self.bits == 0 && other.bits == 0
        } else {
            self.bits <= other.bits
        }
    }
}

proof fn lemma_units_sign(bits: int)
    requires
        0 <= bits,
    ensures
        units(bits) >= 0,
        units(bits) == 0 <==> bits == 0,
{
    lemma_units_start();
    if bits > 0 {
        lemma_units_grow(0, bits);
    }
}

// ---------------------------------------------------------------------------
// Reaching a target
// ---------------------------------------------------------------------------

/// From where on decimal numbers are read as doubles that are at least some double.
pub enum Limit {
    /// From anywhere on.
    Always,
    /// From `edge` on, which counts where `inclusive` says so.
    From { edge: Decimal, inclusive: bool },
}

impl Limit {
    /// The edge is a decimal number.
    pub open spec fn wf(&self) -> bool {
        self matches Limit::From { edge, .. } ==> edge.wf()
    }

    /// `d` lies from the limit on.
    pub open spec fn met_by(&self, d: DecimalView) -> bool {
        match *self {
            Limit::Always => true,
            Limit::From { edge, inclusive } => if inclusive {
                crate::decimal::at_most(edge@, d)
            } else {
                !crate::decimal::at_most(d, edge@)
            },
        }
    }

    /// Whether `d` lies from the limit on.
    pub fn is_met_by(&self, d: &Decimal) -> (res: bool)
        requires
            self.wf(),
            d.wf(),
        ensures
            res == self.met_by(d@),
    {
        match self {
            Limit::Always => true,
            Limit::From { edge, inclusive } => if *inclusive {
                edge.is_at_most(d)
            } else {
                !d.is_at_most(edge)
            },
        }
    }
}

/// Which decimal numbers are read as doubles that are at least the double with bits `p`.
proof fn lemma_reads_from(d: DecimalView, e: DecimalView, p: int)
    requires
        0 < p <= INFINITE,
        !e.negative,
        e.exponent >= -1075,
        crate::decimal::magnitude_in(e, -1075) == edge(p - 1) * pow(5, 1075),
    ensures
        double_of(d).value() >= units(p) <==> (if p % 2 == 0 {
            crate::decimal::at_most(e, d)
        } else {
            !crate::decimal::at_most(d, e)
        }),
{
    let u = deep_unit(d);
    let x = crate::decimal::magnitude_in(d, u);
    let k = grain(u);
    let bits = nearest(x, k);
    lemma_grain_positive(u);
    lemma_nearest_exists(x, k);
    lemma_grains(e, edge(p - 1), u);
    crate::decimal::lemma_at_most_in(e, d, u);
    crate::decimal::lemma_at_most_in(d, e, u);
    lemma_units_sign(bits);
    lemma_units_sign(p);
    lemma_magnitude_sign(d, u);
    lemma_units_start();
    if p - 1 > 0 {
        lemma_units_grow(0, p - 1);
    }
    let n = edge(p - 1);
    assert(n * k > 0) by (nonlinear_arith)
        requires
            n > 0,
            k > 0,
    ;
    if !d.negative {
        lemma_nearest_from(x, k, bits, p);
        if bits < p {
            lemma_units_grow(bits, p);
        }
        if p < bits {
            lemma_units_grow(p, bits);
        }
    }
}

/// Which decimal numbers are read as doubles that are at least minus the double with bits `p`.
proof fn lemma_reads_from_below(d: DecimalView, e: DecimalView, p: int)
    requires
        0 <= p < INFINITE,
        e.negative,
        e.exponent >= -1075,
        crate::decimal::magnitude_in(e, -1075) == edge(p) * pow(5, 1075),
    ensures
        double_of(d).value() >= -units(p) <==> (if p % 2 == 0 {
            crate::decimal::at_most(e, d)
        } else {
            !crate::decimal::at_most(d, e)
        }),
{
    let u = deep_unit(d);
    let x = crate::decimal::magnitude_in(d, u);
    let k = grain(u);
    let bits = nearest(x, k);
    lemma_grain_positive(u);
    lemma_nearest_exists(x, k);
    let f = DecimalView { negative: false, ..e };
    assert(crate::decimal::magnitude_in(f, -1075) == edge(p) * pow(5, 1075));
    lemma_grains(f, edge(p), u);
    assert(crate::decimal::magnitude_in(e, u) == crate::decimal::magnitude_in(f, u));
    crate::decimal::lemma_at_most_in(e, d, u);
    crate::decimal::lemma_at_most_in(d, e, u);
    lemma_units_sign(bits);
    lemma_units_sign(p);
    lemma_magnitude_sign(d, u);
    lemma_units_start();
    if p > 0 {
        lemma_units_grow(0, p);
    }
    let n = edge(p);
    assert(n * k > 0) by (nonlinear_arith)
        requires
            n > 0,
            k > 0,
    ;
    if d.negative {
        lemma_nearest_from(x, k, bits, p + 1);
        if bits < p {
            lemma_units_grow(bits, p);
        }
        if p < bits {
            lemma_units_grow(p, bits);
        }
    }
}

proof fn lemma_magnitude_sign(d: DecimalView, unit: int)
    ensures
        crate::decimal::magnitude_in(d, unit) >= 0,
{
    lemma_pow_positive(10, (d.exponent - unit) as nat);
    let m = crate::decimal::nat_of(d.digits) as int;
    let p = pow(10, (d.exponent - unit) as nat);
    assert(m * p >= 0) by (nonlinear_arith)
        requires
            m >= 0,
            p > 0,
    ;
}

/// From where on decimal numbers are read as doubles that are at least `double`.
fn limit_at(double: &Double) -> (res: Limit)
    requires
        double.wf(),
    ensures
        res.wf(),
        forall|d: DecimalView| #[trigger]
            res.met_by(d) == (double_of(d).value() >= double@.value()),
{
    let p = double.bits;
    if !double.negative && p > 0 {
        let edge = edge_of(p - 1);
        let res = Limit::From { edge, inclusive: p % 2 == 0 };
        assert forall|d: DecimalView| #[trigger]
            res.met_by(d) == (double_of(d).value() >= double@.value()) by {
            lemma_reads_from(d, edge@, p as int);
        }
        res
    } else if p == INFINITE {
        assert forall|d: DecimalView| double_of(d).value() >= -units(INFINITE as int) by {
            let u = deep_unit(d);
            let x = crate::decimal::magnitude_in(d, u);
            let bits = nearest(x, grain(u));
            lemma_grain_positive(u);
            lemma_nearest_exists(x, grain(u));
            lemma_units_sign(bits);
            lemma_units_sign(INFINITE as int);
            if bits < INFINITE {
                lemma_units_grow(bits, INFINITE as int);
            }
        }
        Limit::Always
    } else {
        let mut edge = edge_of(p);
        edge.negative = true;
        let res = Limit::From { edge, inclusive: p % 2 == 0 };
        proof {
            lemma_units_start();
        }
        assert forall|d: DecimalView| #[trigger]
            res.met_by(d) == (double_of(d).value() >= double@.value()) by {
            lemma_reads_from_below(d, edge@, p as int);
        }
        res
    }
}

/// From where on recalls, in decimal, reach a target.
pub fn reach_limit(target: &Decimal) -> (res: Limit)
    requires
        target.wf(),
        crate::decimal::fits_double(target@),
    ensures
        res.wf(),
        forall|d: DecimalView| #[trigger] res.met_by(d) == reaches(d, target@),
{
    let tiny = Decimal { negative: false, digits: vec!['1'], exponent: -9 };
    assert(tiny@.digits =~= seq!['1']);
    assert(crate::decimal::all_digits(tiny.digits@));
    let least = Double::of(target).minus(&Double::of(&tiny));
    limit_at(&least)
}

/// What reaches a target reaches every one that is not greater, as a double.
pub proof fn lemma_reaches_lower(recall: DecimalView, high: DecimalView, low: DecimalView)
    requires
        reaches(recall, high),
        double_of(low).value() <= double_of(high).value(),
    ensures
        reaches(recall, low),
{
    let s = slack().value();
    let a = double_of(low).value() - s;
    let b = double_of(high).value() - s;
    lemma_minus_value(double_of(low), slack());
    lemma_minus_value(double_of(high), slack());
    if a >= 0 {
        lemma_nearest_keeps_order(2 * a, 2 * b);
    } else if b < 0 {
        lemma_nearest_keeps_order(-2 * b, -2 * a);
    }
}

proof fn lemma_minus_value(a: DoubleView, b: DoubleView)
    ensures
        minus(a, b).negative ==> minus(a, b).value() <= 0,
        !minus(a, b).negative ==> minus(a, b).value() >= 0,
{
    let diff = a.value() - b.value();
    let x = 2 * (if diff < 0 {
        -diff
    } else {
        diff
    });
    lemma_nearest_exists(x, 1);
    lemma_units_sign(nearest(x, 1));
}

/// Of two numbers the greater one has no lesser nearest double.
proof fn lemma_nearest_keeps_order(x: int, y: int)
    requires
        x <= y,
    ensures
        units(nearest(x, 1)) <= units(nearest(y, 1)),
{
    lemma_nearest_exists(x, 1);
    lemma_nearest_exists(y, 1);
    let a = nearest(x, 1);
    let b = nearest(y, 1);
    if a > 0 {
        lemma_nearest_from(x, 1, a, a);
        lemma_nearest_from(y, 1, b, a);
    }
    if a < b {
        lemma_units_grow(a, b);
    }
}

// ---------------------------------------------------------------------------
// What holds of doubles and targets
// ---------------------------------------------------------------------------

/// A double is nearest to itself.
proof fn lemma_nearest_itself(bits: int)
    requires
        0 <= bits <= INFINITE,
    ensures
        nearest(2 * units(bits), 1) == bits,
{
    lemma_next_units(bits);
    if bits > 0 {
        lemma_next_units(bits - 1);
    }
    assert(is_nearest(2 * units(bits), 1, bits));
    lemma_nearest_unique(2 * units(bits), 1, bits);
}

proof fn lemma_double_bits(d: DecimalView)
    ensures
        0 <= double_of(d).bits <= INFINITE,
        units(double_of(d).bits) >= 0,
{
    let x = crate::decimal::magnitude_in(d, deep_unit(d));
    lemma_grain_positive(deep_unit(d));
    lemma_nearest_exists(x, grain(deep_unit(d)));
    lemma_units_sign(double_of(d).bits);
}

/// No double is nearer to a number than the one that it is read as; where another is as near, it
/// is the one with even bits.
pub proof fn law_nearest(x: int, k: int, other: int)
    requires
        k > 0,
        x >= 0,
        0 <= other <= INFINITE,
        other != nearest(x, k),
    ensures
        ({
            let bits = nearest(x, k);
            let near = x - 2 * units(bits) * k;
            let far = x - 2 * units(other) * k;
            &&& 0 <= bits <= INFINITE
            &&& other > bits ==> near <= -far && (near == -far ==> bits % 2 == 0)
            &&& other < bits ==> -near <= far && (-near == far ==> bits % 2 == 0)
        }),
{
    lemma_nearest_exists(x, k);
    let bits = nearest(x, k);
    let u = units(bits);
    let v = units(other);
    if other > bits {
        let w = units(bits + 1);
        if other > bits + 1 {
            lemma_units_grow(bits + 1, other);
        }
        let e = edge(bits);
        assert(2 * u * k + 2 * v * k >= 2 * (e * k)) by (nonlinear_arith)
            requires
                e == u + w,
                w <= v,
                k > 0,
        ;
    } else {
        let w = units(bits - 1);
        if other < bits - 1 {
            lemma_units_grow(other, bits - 1);
        }
        let e = edge(bits - 1);
        assert(2 * u * k + 2 * v * k <= 2 * (e * k)) by (nonlinear_arith)
            requires
                e == u + w,
                v <= w,
                k > 0,
        ;
    }
}

/// Some powers of two.
proof fn lemma_powers_of_two()
    ensures
        pow(2, 30) == 1_073_741_824,
        pow(2, 52) == NORMAL,
{
    assert(pow(2, 13) == 8192) by {
        reveal_with_fuel(pow, 14);
    }
    assert(pow(2, 4) == 16) by {
        reveal_with_fuel(pow, 5);
    }
    lemma_pow_adds(2, 13, 13);
    assert(pow(2, 26) == 67_108_864);
    lemma_pow_adds(2, 26, 4);
    lemma_pow_adds(2, 26, 26);
    let p = pow(2, 26);
    assert(p * p == 67_108_864 * 67_108_864) by (nonlinear_arith)
        requires
            p == 67_108_864,
    ;
}

/// The bits of the double 1.
pub open spec fn one_bits() -> int {
    1023 * NORMAL
}

proof fn lemma_one_units()
    ensures
        units(one_bits()) == pow(2, 1074),
{
    lemma_powers_of_two();
    lemma_pow_adds(2, 52, 1022);
    let n = NORMAL as int;
    assert(one_bits() % n == 0 && one_bits() / n == 1023);
}

/// Ten to the power of 1075 in grains.
proof fn lemma_grain_of_one()
    ensures
        grain(-1075) == pow(5, 1075),
        pow(10, 1075) == 2 * pow(2, 1074) * grain(-1075),
        grain(-1075) > 0,
        pow(2, 1075) == 2 * pow(2, 1074),
{
    lemma_pow0(10);
    lemma_pow_distributes(2, 5, 1075);
    lemma_grain_positive(-1075);
    lemma_pow_adds(2, 1074, 1);
    lemma_pow1(2);
}

/// Zero and one are read as the doubles of those values.
#[verifier::rlimit(40)]
pub proof fn law_zero_and_one(zero: DecimalView, one: DecimalView)
    requires
        crate::decimal::nat_of(zero.digits) == 0,
        crate::decimal::nat_of(one.digits) == 1,
        !one.negative,
        zero.exponent == 0,
        one.exponent == 0,
    ensures
        double_of(zero).value() == 0,
        double_of(one).value() == pow(2, 1074),
{
    let k = grain(-1075);
    lemma_grain_of_one();
    lemma_units_start();
    let x = crate::decimal::magnitude_in(zero, -1075);
    assert(x == 0) by (nonlinear_arith)
        requires
            x == 0 * pow(10, 1075),
    ;
    assert(is_nearest(x, k, 0));
    lemma_nearest_unique(x, k, 0);
    let y = crate::decimal::magnitude_in(one, -1075);
    assert(y == pow(10, 1075));
    let bits = one_bits();
    let u = units(bits);
    lemma_one_units();
    lemma_next_units(bits);
    lemma_next_units(bits - 1);
    let a = edge(bits - 1);
    let b = edge(bits);
    assert(a * k < y && y < b * k) by (nonlinear_arith)
        requires
            a < 2 * u,
            2 * u < b,
            y == 2 * u * k,
            k > 0,
    ;
    assert(is_nearest(y, k, bits));
    lemma_nearest_unique(y, k, bits);
}

/// The slack is one billionth: a double greater than zero, with the billionth between its half
/// ways to the doubles next to it.
#[verifier::rlimit(40)]
pub proof fn law_slack_is_a_billionth()
    ensures
        !slack().negative,
        0 < slack().bits < INFINITE,
        slack().value() > 0,
        edge(slack().bits - 1) * 1_000_000_000 <= pow(2, 1075) <= edge(slack().bits)
            * 1_000_000_000,
{
    let d = DecimalView { negative: false, digits: seq!['1'], exponent: -9 };
    let k = grain(-1075);
    let x = crate::decimal::magnitude_in(d, -1075);
    let two = pow(2, 1075);
    lemma_grain_of_one();
    lemma_powers_of_two();
    assert(d.digits.drop_last() =~= Seq::empty());
    assert(crate::decimal::nat_of(Seq::empty()) == 0);
    assert(crate::decimal::nat_of(d.digits) == 1);
    let ten = pow(10, 1066);
    assert(x == ten) by (nonlinear_arith)
        requires
            x == 1 * ten,
    ;
    lemma_pow_adds(10, 1066, 9);
    lemma_pow_positive(10, 1066);
    assert(pow(10, 9) == 1_000_000_000) by {
        reveal_with_fuel(pow, 10);
    }
    assert(x * 1_000_000_000 == two * k);
    lemma_nearest_exists(x, k);
    let bits = slack().bits;
    assert(bits == nearest(x, k));
    lemma_units_start();
    if bits == 0 {
        lemma_pow_increases(2, 30, 1075);
        assert(two <= 1_000_000_000) by (nonlinear_arith)
            requires
                x <= k,
                x * 1_000_000_000 == two * k,
                k > 0,
        ;
    }
    let one = one_bits();
    lemma_one_units();
    if bits >= one {
        lemma_nearest_from(x, k, bits, one);
        lemma_units_sign(one - 1);
        let a = edge(one - 1);
        let u = units(one);
        assert(x <= 0) by (nonlinear_arith)
            requires
                a * k <= x,
                u <= a,
                x * 1_000_000_000 == 2 * u * k,
                k > 0,
        ;
    }
    let a = edge(bits - 1);
    let b = edge(bits);
    assert(a * 1_000_000_000 <= two) by (nonlinear_arith)
        requires
            a * k <= x,
            x * 1_000_000_000 == two * k,
            k > 0,
    ;
    assert(two <= b * 1_000_000_000) by (nonlinear_arith)
        requires
            x <= b * k,
            x * 1_000_000_000 == two * k,
            k > 0,
    ;
    lemma_units_grow(0, bits);
}

/// A recall that is not less than the target, as a double, reaches it.
pub proof fn law_no_less_reaches(recall: DecimalView, target: DecimalView)
    requires
        double_of(recall).value() >= double_of(target).value(),
    ensures
        reaches(recall, target),
{
    let t = double_of(target);
    let diff = t.value() - slack().value();
    law_slack_is_a_billionth();
    lemma_double_bits(target);
    lemma_nearest_itself(t.bits);
    lemma_minus_value(t, slack());
    if diff >= 0 {
        lemma_nearest_keeps_order(2 * diff, 2 * units(t.bits));
    } else if t.value() < 0 {
        lemma_nearest_keeps_order(2 * units(t.bits), -2 * diff);
    }
}

/// A recall that falls below a double which the slack leaves below the target does not reach it.
pub proof fn law_below_the_slack_does_not_reach(
    recall: DecimalView,
    target: DecimalView,
    bits: int,
)
    requires
        0 <= bits <= INFINITE,
        units(bits) <= double_of(target).value() - slack().value(),
        double_of(recall).value() < units(bits),
    ensures
        !reaches(recall, target),
{
    let diff = double_of(target).value() - slack().value();
    lemma_units_sign(bits);
    lemma_nearest_itself(bits);
    lemma_nearest_keeps_order(2 * units(bits), 2 * diff);
}

} // verus!
