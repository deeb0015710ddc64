//! Numbers written in decimal: reading them and comparing them exactly.

use crate::text::{ascii_lower_text, chars_of, push_int, push_repeated, same_text, slice_text};
use vstd::arithmetic::power::*;
use vstd::prelude::*;
use vstd::string::*;

verus! {

// ---------------------------------------------------------------------------
// Digits
// ---------------------------------------------------------------------------

/// `c` is one of `0` to `9`.
pub open spec fn is_digit(c: char) -> bool {
    '0' <= c <= '9'
}

/// The value of a digit.
pub open spec fn digit_value(c: char) -> nat {
    (c as int - 48) as nat
}

/// Every character of `s` is a digit.
pub open spec fn all_digits(s: Seq<char>) -> bool {
    forall|i: int| 0 <= i < s.len() ==> is_digit(#[trigger] s[i])
}

/// The number that a sequence of digits writes in base ten.
pub open spec fn nat_of(s: Seq<char>) -> nat
    decreases s.len(),
{
    if s.len() == 0 {
        0
    } else {
        nat_of(s.drop_last()) * 10 + digit_value(s.last())
    }
}

/// The first position at or after `from` that does not hold a digit.
pub open spec fn digits_end(s: Seq<char>, from: int) -> int
    decreases s.len() - from,
{
    if 0 <= from < s.len() && is_digit(s[from]) {
        digits_end(s, from + 1)
    } else {
        from
    }
}

/// The value of a digit.
fn digit_number(c: char) -> (d: u8)
    requires
        is_digit(c),
    ensures
        d == digit_value(c),
        d <= 9,
{
    c as u8 - 48
}

/// A longer run of digits does not write a smaller number.
proof fn lemma_nat_of_grows(s: Seq<char>, n: int)
    requires
        0 <= n <= s.len(),
    ensures
        nat_of(s.take(n)) <= nat_of(s),
    decreases s.len(),
{
    if n < s.len() {
        lemma_nat_of_grows(s.drop_last(), n);
        assert(s.drop_last().take(n) =~= s.take(n));
    } else {
        assert(s.take(n) =~= s);
    }
}

proof fn lemma_digits_end(s: Seq<char>, from: int)
    requires
        0 <= from <= s.len(),
    ensures
        from <= digits_end(s, from) <= s.len(),
        all_digits(s.subrange(from, digits_end(s, from))),
    decreases s.len() - from,
{
    if from < s.len() && is_digit(s[from]) {
        lemma_digits_end(s, from + 1);
        let end = digits_end(s, from);
        assert forall|i: int| 0 <= i < end - from implies is_digit(
            #[trigger] s.subrange(from, end)[i],
        ) by {
            if i > 0 {
                assert(s.subrange(from, end)[i] == s.subrange(from + 1, end)[i - 1]);
            }
        }
    }
}

/// The first position at or after `from` that does not hold a digit.
fn skip_digits(s: &[char], from: usize) -> (end: usize)
    requires
        from <= s@.len(),
    ensures
        end == digits_end(s@, from as int),
        from <= end <= s@.len(),
        all_digits(s@.subrange(from as int, end as int)),
{
    proof {
        lemma_digits_end(s@, from as int);
    }
    let mut i: usize = from;
    while i < s.len() && '0' <= s[i] && s[i] <= '9'
        invariant
            from <= i <= s@.len(),
            digits_end(s@, from as int) == digits_end(s@, i as int),
        decreases s@.len() - i,
    {
        i += 1;
    }
    i
}

// ---------------------------------------------------------------------------
// Unsigned integers
// ---------------------------------------------------------------------------

/// The unsigned 64-bit integer that `s` writes: digits, with an optional `+` in front.
pub open spec fn read_u64(s: Seq<char>) -> Option<u64> {
    let body = if s.len() > 0 && s[0] == '+' {
        s.drop_first()
    } else {
        s
    };
    if body.len() > 0 && all_digits(body) && nat_of(body) <= u64::MAX {
        Some(nat_of(body) as u64)
    } else {
        None
    }
}

/// The unsigned 64-bit integer that `s` writes, if it writes one.
pub fn parse_u64(s: &str) -> (res: Option<u64>)
    ensures
        res == read_u64(s@),
{
    let chars = chars_of(s);
    let from: usize = if chars.len() > 0 && chars[0] == '+' {
        1
    } else {
        0
    };
    let ghost body = s@.skip(from as int);
    assert(from == 1 ==> body =~= s@.drop_first());
    assert(from == 0 ==> body =~= s@);
    if from == chars.len() {
        return None;
    }
    let mut n: u64 = 0;
    for i in from..chars.len()
        invariant
            from <= chars@.len(),
            chars@ == s@,
            body == s@.skip(from as int),
            body.len() > 0,
            read_u64(s@) == (if all_digits(body) && nat_of(body) <= u64::MAX {
                Some(nat_of(body) as u64)
            } else {
                None
            }),
            all_digits(body.take(i - from)),
            n == nat_of(body.take(i - from)),
    {
        let c = chars[i];
        assert(body[i - from] == c);
        if !('0' <= c && c <= '9') {
            return None;
        }
        let ghost next = body.take(i - from + 1);
        assert(next.drop_last() =~= body.take(i - from));
        assert(all_digits(next));
        let d = digit_number(c) as u64;
        proof {
            lemma_nat_of_grows(body, i - from + 1);
        }
        if n > (u64::MAX - d) / 10 {
            return None;
        }
        n = n * 10 + d;
    }
    assert(body.take(chars@.len() - from) =~= body);
    Some(n)
}

proof fn lemma_dec_digits(n: nat)
    ensures
        crate::text::dec(n).len() > 0,
        all_digits(crate::text::dec(n)),
        nat_of(crate::text::dec(n)) == n,
        n > 0 ==> crate::text::dec(n)[0] != '0',
    decreases n,
{
    let s = crate::text::dec(n);
    if n < 10 {
        assert(s.drop_last() =~= Seq::empty());
        assert(nat_of(s.drop_last()) == 0);
    } else {
        let front = crate::text::dec(n / 10);
        lemma_dec_digits(n / 10);
        assert(s.drop_last() =~= front);
        assert(n / 10 > 0);
        assert forall|i: int| 0 <= i < s.len() implies is_digit(#[trigger] s[i]) by {
            if i < front.len() {
                assert(is_digit(front[i]));
            }
        }
        assert(s[0] == front[0]);
    }
}

/// A numeral reads back as the number that was written: it is made of digits, the first of which
/// is no zero but for zero itself, and different numbers have different numerals.
pub proof fn law_numerals_read_back(n: u64, m: u64)
    ensures
        all_digits(crate::text::dec(n as nat)),
        n > 0 ==> crate::text::dec(n as nat)[0] != '0',
        read_u64(crate::text::dec(n as nat)) == Some(n),
        crate::text::dec(n as nat) == crate::text::dec(m as nat) ==> n == m,
{
    lemma_dec_digits(n as nat);
    lemma_dec_digits(m as nat);
    let s = crate::text::dec(n as nat);
    assert(is_digit(s[0]));
    assert(s.skip(0) =~= s);
    assert(s.subrange(0, s.len() as int) =~= s);
}

/// The numeral of a negative integer is a minus sign before that of its amount, and no other
/// integer's has one; different integers have different numerals.
pub proof fn law_signed_numerals(a: i64, b: i64)
    ensures
        a < 0 ==> crate::text::int_dec(a as int) == seq!['-'] + crate::text::dec((-a) as nat),
        a >= 0 ==> read_u64(crate::text::int_dec(a as int)) == Some(a as u64),
        a < 0 <==> crate::text::int_dec(a as int)[0] == '-',
        crate::text::int_dec(a as int) == crate::text::int_dec(b as int) ==> a == b,
{
    let x = crate::text::int_dec(a as int);
    let y = crate::text::int_dec(b as int);
    let m: u64 = if a < 0 { (-a) as u64 } else { a as u64 };
    let n: u64 = if b < 0 { (-b) as u64 } else { b as u64 };
    law_numerals_read_back(m, n);
    law_numerals_read_back(n, m);
    assert(is_digit(crate::text::dec(m as nat)[0]) && is_digit(crate::text::dec(n as nat)[0])) by {
        lemma_dec_digits(m as nat);
        lemma_dec_digits(n as nat);
    }
    if x == y {
        if a < 0 {
            assert(x[0] == '-');
            assert(b < 0);
            assert(x.skip(1) =~= crate::text::dec(m as nat));
            assert(y.skip(1) =~= crate::text::dec(n as nat));
        }
    }
}

// ---------------------------------------------------------------------------
// Decimal numbers
// ---------------------------------------------------------------------------

/// Exponents are held within this bound.
pub const EXPONENT_LIMIT: i128 = 1_000_000_000_000_000_000_000_000_000_000;

/// A decimal number: `digits` times ten to the power of `exponent`, with a sign.
pub struct DecimalView {
    pub negative: bool,
    pub digits: Seq<char>,
    pub exponent: int,
}

/// A decimal number: `digits` times ten to the power of `exponent`, with a sign.
pub struct Decimal {
    pub negative: bool,
    pub digits: Vec<char>,
    pub exponent: i128,
}

impl View for Decimal {
    type V = DecimalView;

    open spec fn view(&self) -> DecimalView {
        DecimalView {
            negative: self.negative,
            digits: self.digits@,
            exponent: self.exponent as int,
        }
    }
}

impl Decimal {
    /// The digits are digits, and the exponent leaves room for arithmetic.
    pub open spec fn wf(&self) -> bool {
        &&& all_digits(self.digits@)
        &&& -2 * EXPONENT_LIMIT <= self.exponent <= 2 * EXPONENT_LIMIT
    }
}

/// The value of an exponent's digits, held at the limit.
pub open spec fn held_exponent(digits: Seq<char>) -> int {
    if nat_of(digits) <= EXPONENT_LIMIT {
        nat_of(digits) as int
    } else {
        EXPONENT_LIMIT as int
    }
}

/// The position behind an optional sign at `from`.
pub open spec fn behind_sign(s: Seq<char>, from: int) -> int {
    if 0 <= from < s.len() && (s[from] == '+' || s[from] == '-') {
        from + 1
    } else {
        from
    }
}

/// The power of ten that the text from `from` on asks for: nothing, or `e` or `E`, an
/// optional sign and digits up to the end.
pub open spec fn read_exponent(s: Seq<char>, from: int) -> Option<int> {
    if from >= s.len() {
        Some(0)
    } else if s[from] == 'e' || s[from] == 'E' {
        let start = behind_sign(s, from + 1);
        let end = digits_end(s, start);
        if end == start || end != s.len() {
            None
        } else if s[from + 1] == '-' {
            Some(-held_exponent(s.subrange(start, end)))
        } else {
            Some(held_exponent(s.subrange(start, end)))
        }
    } else {
        None
    }
}

/// The decimal number that `s` writes: an optional sign; digits with at most one point
/// among, before or behind them, at least one digit; and an optional exponent.
pub open spec fn read_decimal(s: Seq<char>) -> Option<DecimalView> {
    let start = behind_sign(s, 0);
    let point = digits_end(s, start);
    let fraction = if point < s.len() && s[point] == '.' {
        point + 1
    } else {
        point
    };
    let end = if fraction > point {
        digits_end(s, fraction)
    } else {
        point
    };
    if point - start + (end - fraction) == 0 {
        None
    } else {
        match read_exponent(s, end) {
            Some(power) => Some(
                DecimalView {
                    negative: s[0] == '-',
                    digits: s.subrange(start, point) + s.subrange(fraction, end),
                    exponent: power - (end - fraction),
                },
            ),
            None => None,
        }
    }
}

/// The exponent that the text from `from` on writes.
fn parse_exponent(s: &[char], from: usize) -> (res: Option<i128>)
    requires
        from <= s@.len(),
    ensures
        res matches Some(e) ==> read_exponent(s@, from as int) == Some(e as int)
            && -EXPONENT_LIMIT <= e <= EXPONENT_LIMIT,
        res is None ==> read_exponent(s@, from as int) is None,
{
    if from == s.len() {
        return Some(0);
    }
    if s[from] != 'e' && s[from] != 'E' {
        return None;
    }
    let mut start: usize = from + 1;
    let mut negative = false;
    if start < s.len() && (s[start] == '+' || s[start] == '-') {
        negative = s[start] == '-';
        start += 1;
    }
    let end = skip_digits(s, start);
    if end == start || end != s.len() {
        return None;
    }
    let ghost digits = s@.subrange(start as int, end as int);
    let mut power: i128 = 0;
    for i in start..end
        invariant
            start <= end <= s@.len(),
            digits == s@.subrange(start as int, end as int),
            all_digits(digits),
            power == held_exponent(digits.take(i - start)),
            0 <= power <= EXPONENT_LIMIT,
    {
        assert(digits[i - start] == s@[i as int]);
        assert(digits.take(i - start + 1).drop_last() =~= digits.take(i - start));
        let next: i128 = power * 10 + digit_number(s[i]) as i128;
        power = if next <= EXPONENT_LIMIT {
            next
        } else {
            EXPONENT_LIMIT
        };
    }
    assert(digits.take(end - start) =~= digits);
    if negative {
        Some(-power)
    } else {
        Some(power)
    }
}

/// The decimal number that `s` writes, if it writes one.
pub fn parse_decimal(s: &str) -> (res: Option<Decimal>)
    ensures
        res matches Some(d) ==> read_decimal(s@) == Some(d@) && d.wf(),
        res is None ==> read_decimal(s@) is None,
{
    let chars = chars_of(s);
    let mut start: usize = 0;
    let mut negative = false;
    if chars.len() > 0 && (chars[0] == '+' || chars[0] == '-') {
        negative = chars[0] == '-';
        start = 1;
    }
    let point = skip_digits(&chars, start);
    let fraction: usize = if point < chars.len() && chars[point] == '.' {
        point + 1
    } else {
        point
    };
    let end: usize = if fraction > point {
        skip_digits(&chars, fraction)
    } else {
        point
    };
    if point == start && end == fraction {
        return None;
    }
    match parse_exponent(&chars, end) {
        None => None,
        Some(power) => {
            let mut digits: Vec<char> = Vec::new();
            for i in start..point
                invariant
                    start <= point <= chars@.len(),
                    digits@ == chars@.subrange(start as int, i as int),
            {
                digits.push(chars[i]);
                assert(digits@ =~= chars@.subrange(start as int, i + 1));
            }
            assert(digits@ =~= chars@.subrange(start as int, point as int) + chars@.subrange(
                fraction as int,
                fraction as int,
            ));
            for i in fraction..end
                invariant
                    start <= point <= fraction <= end <= chars@.len(),
                    digits@ == chars@.subrange(start as int, point as int) + chars@.subrange(
                        fraction as int,
                        i as int,
                    ),
            {
                digits.push(chars[i]);
                assert(digits@ =~= chars@.subrange(start as int, point as int) + chars@.subrange(
                    fraction as int,
                    i + 1,
                ));
            }
            let res = Decimal { negative, digits, exponent: power - (end - fraction) as i128 };
            proof {
                let a = s@.subrange(start as int, point as int);
                let b = s@.subrange(fraction as int, end as int);
                assert(all_digits(b));
                assert forall|i: int| 0 <= i < res.digits@.len() implies is_digit(
                    #[trigger] res.digits@[i],
                ) by {
                    if i < a.len() {
                        assert(is_digit(a[i]));
                    } else {
                        assert(is_digit(b[i - a.len()]));
                    }
                }
            }
            Some(res)
        },
    }
}

// ---------------------------------------------------------------------------
// Comparison
// ---------------------------------------------------------------------------

/// The absolute value of `d` in units of ten to the power of `unit`.
pub open spec fn magnitude_in(d: DecimalView, unit: int) -> int {
    nat_of(d.digits) * pow(10, (d.exponent - unit) as nat)
}

/// The value of `d` in units of ten to the power of `unit`.
pub open spec fn value_in(d: DecimalView, unit: int) -> int {
    if d.negative {
        -magnitude_in(d, unit)
    } else {
        magnitude_in(d, unit)
    }
}

/// A unit in which both numbers are whole.
pub open spec fn common_unit(a: DecimalView, b: DecimalView) -> int {
    if a.exponent <= b.exponent {
        a.exponent
    } else {
        b.exponent
    }
}

/// `a` is at most `b`, as numbers.
pub open spec fn at_most(a: DecimalView, b: DecimalView) -> bool {
    value_in(a, common_unit(a, b)) <= value_in(b, common_unit(a, b))
}

/// The value of a number in a unit that is ten to the power of `n` smaller.
pub proof fn lemma_value_rescaled(d: DecimalView, unit: int, n: nat)
    requires
        unit <= d.exponent,
    ensures
        value_in(d, unit - n) == value_in(d, unit) * pow(10, n),
{
    lemma_pow_adds(10, (d.exponent - unit) as nat, n);
    let x = nat_of(d.digits) as int;
    let p = pow(10, (d.exponent - unit) as nat);
    let q = pow(10, n);
    assert((d.exponent - (unit - n)) as nat == (d.exponent - unit) as nat + n);
    assert(x * (p * q) == (x * p) * q && (-(x * p)) * q == -((x * p) * q)) by (nonlinear_arith);
}

/// A comparison may be made in any unit in which both numbers are whole.
pub proof fn lemma_at_most_in(a: DecimalView, b: DecimalView, unit: int)
    requires
        unit <= a.exponent,
        unit <= b.exponent,
    ensures
        at_most(a, b) <==> value_in(a, unit) <= value_in(b, unit),
{
    let common = common_unit(a, b);
    let n = (common - unit) as nat;
    lemma_value_rescaled(a, common, n);
    lemma_value_rescaled(b, common, n);
    lemma_pow_positive(10, n);
    let x = value_in(a, common);
    let y = value_in(b, common);
    let p = pow(10, n);
    assert(x <= y <==> x * p <= y * p) by (nonlinear_arith)
        requires
            p > 0,
    ;
}

/// Decimal numbers are in the order of their digits where they have one exponent; a minus sign
/// turns it round, and a number with a minus sign is never the greater of two.
pub proof fn law_order_of_numbers(a: DecimalView, b: DecimalView)
    requires
        a.exponent == b.exponent,
    ensures
        !a.negative && !b.negative ==> (at_most(a, b) <==> nat_of(a.digits) <= nat_of(b.digits)),
        a.negative && b.negative ==> (at_most(a, b) <==> nat_of(b.digits) <= nat_of(a.digits)),
        a.negative && !b.negative ==> at_most(a, b),
        !a.negative && b.negative ==> (at_most(a, b) <==> nat_of(a.digits) == 0 && nat_of(b.digits)
            == 0),
{
    lemma_pow0(10);
    let x = nat_of(a.digits) as int;
    let y = nat_of(b.digits) as int;
    assert(x * 1 == x && y * 1 == y) by (nonlinear_arith);
}

/// A number with one more zero behind its digits is ten times as great, and so is one whose
/// exponent is greater by one.
pub proof fn law_exponent_counts_zeros(d: DecimalView)
    ensures
        ({
            let digits = DecimalView { digits: d.digits.push('0'), ..d };
            let power = DecimalView { exponent: d.exponent + 1, ..d };
            at_most(digits, power) && at_most(power, digits)
        }),
{
    let digits = DecimalView { digits: d.digits.push('0'), ..d };
    let power = DecimalView { exponent: d.exponent + 1, ..d };
    assert(digits.digits.drop_last() =~= d.digits);
    assert(digit_value('0') == 0);
    let x = nat_of(d.digits) as int;
    assert(nat_of(digits.digits) == x * 10);
    lemma_pow0(10);
    lemma_pow1(10);
    let ten = pow(10, 1);
    assert((x * 10) * 1 == x * ten) by (nonlinear_arith)
        requires
            ten == 10,
    ;
    assert((digits.exponent - d.exponent) as nat == 0 && (power.exponent - d.exponent) as nat == 1);
    assert(common_unit(digits, power) == d.exponent && common_unit(power, digits) == d.exponent);
}

/// The order of decimal numbers is total.
pub proof fn lemma_at_most_total(a: DecimalView, b: DecimalView)
    ensures
        at_most(a, b) || at_most(b, a),
{
    assert(common_unit(a, b) == common_unit(b, a));
}

/// The order of decimal numbers is transitive.
pub proof fn lemma_at_most_transitive(a: DecimalView, b: DecimalView, c: DecimalView)
    requires
        at_most(a, b),
        at_most(b, c),
    ensures
        at_most(a, c),
{
    let unit = common_unit(a, b) - if common_unit(a, b) > c.exponent {
        common_unit(a, b) - c.exponent
    } else {
        0
    };
    lemma_at_most_in(a, b, unit);
    lemma_at_most_in(b, c, unit);
    lemma_at_most_in(a, c, unit);
}

proof fn lemma_nat_of_concat(a: Seq<char>, b: Seq<char>)
    ensures
        nat_of(a + b) == nat_of(a) * pow(10, b.len()) + nat_of(b),
    decreases b.len(),
{
    reveal(pow);
    if b.len() == 0 {
        assert(a + b =~= a);
    } else {
        lemma_nat_of_concat(a, b.drop_last());
        assert((a + b).drop_last() =~= a + b.drop_last());
        let p = pow(10, (b.len() - 1) as nat);
        assert(pow(10, b.len()) == 10 * p);
        let x = nat_of(a) as int;
        assert((x * p) * 10 == x * (10 * p)) by (nonlinear_arith);
    }
}

proof fn lemma_nat_of_below(s: Seq<char>)
    requires
        all_digits(s),
    ensures
        nat_of(s) < pow(10, s.len()),
    decreases s.len(),
{
    reveal(pow);
    if s.len() > 0 {
        assert(all_digits(s.drop_last())) by {
            assert forall|i: int| 0 <= i < s.len() - 1 implies is_digit(
                #[trigger] s.drop_last()[i],
            ) by {
                assert(s.drop_last()[i] == s[i]);
            }
        }
        lemma_nat_of_below(s.drop_last());
    }
}

/// A numeral that does not start with a zero has the size of its length.
proof fn lemma_nat_of_at_least(s: Seq<char>)
    requires
        all_digits(s),
        s.len() > 0,
        s[0] != '0',
    ensures
        pow(10, (s.len() - 1) as nat) <= nat_of(s),
    decreases s.len(),
{
    reveal(pow);
    if s.len() == 1 {
        assert(is_digit(s[0]));
        assert(s.last() == s[0]);
        assert(s.drop_last() =~= Seq::empty());
        assert(pow(10, 0) == 1);
    } else {
        assert(all_digits(s.drop_last())) by {
            assert forall|i: int| 0 <= i < s.len() - 1 implies is_digit(
                #[trigger] s.drop_last()[i],
            ) by {
                assert(s.drop_last()[i] == s[i]);
            }
        }
        lemma_nat_of_at_least(s.drop_last());
    }
}

proof fn lemma_nat_of_zeros(s: Seq<char>)
    requires
        forall|i: int| 0 <= i < s.len() ==> s[i] == '0',
    ensures
        nat_of(s) == 0,
    decreases s.len(),
{
    if s.len() > 0 {
        lemma_nat_of_zeros(s.drop_last());
    }
}

/// Of two numerals of one length, the first digit in which they differ decides.
proof fn lemma_first_difference(a: Seq<char>, b: Seq<char>, i: int)
    requires
        all_digits(a),
        all_digits(b),
        a.len() == b.len(),
        0 <= i < a.len(),
        a.take(i) == b.take(i),
        a[i] < b[i],
    ensures
        nat_of(a) < nat_of(b),
{
    let rest = (a.len() - i - 1) as nat;
    let p = pow(10, rest);
    assert(a =~= a.take(i + 1) + a.skip(i + 1));
    assert(b =~= b.take(i + 1) + b.skip(i + 1));
    lemma_nat_of_concat(a.take(i + 1), a.skip(i + 1));
    lemma_nat_of_concat(b.take(i + 1), b.skip(i + 1));
    assert(a.take(i + 1).drop_last() =~= a.take(i));
    assert(b.take(i + 1).drop_last() =~= b.take(i));
    assert(all_digits(a.skip(i + 1))) by {
        assert forall|k: int| 0 <= k < rest implies is_digit(#[trigger] a.skip(i + 1)[k]) by {
            assert(is_digit(a[i + 1 + k]));
        }
    }
    lemma_nat_of_below(a.skip(i + 1));
    assert(is_digit(a[i]) && is_digit(b[i]));
    let x = nat_of(a.take(i + 1)) as int;
    let y = nat_of(b.take(i + 1)) as int;
    assert(x + 1 <= y);
    assert(x * p + p <= y * p) by (nonlinear_arith)
        requires
            x + 1 <= y,
            p >= 0,
    ;
}

/// The number of zeros that `digits` starts with.
fn leading_zeros(digits: &Vec<char>) -> (n: usize)
    requires
        all_digits(digits@),
    ensures
        n <= digits@.len(),
        n < digits@.len() ==> digits@[n as int] != '0',
        nat_of(digits@.skip(n as int)) == nat_of(digits@),
        all_digits(digits@.skip(n as int)),
{
    let mut n: usize = 0;
    while n < digits.len() && digits[n] == '0'
        invariant
            n <= digits@.len(),
            forall|i: int| 0 <= i < n ==> digits@[i] == '0',
        decreases digits@.len() - n,
    {
        n += 1;
    }
    proof {
        let zeros = digits@.take(n as int);
        let rest = digits@.skip(n as int);
        assert(digits@ =~= zeros + rest);
        lemma_nat_of_concat(zeros, rest);
        lemma_nat_of_zeros(zeros);
        assert forall|i: int| 0 <= i < rest.len() implies is_digit(#[trigger] rest[i]) by {
            assert(is_digit(digits@[n + i]));
        }
    }
    n
}

/// The digits of `s` continued with zeros up to `len` digits.
spec fn extended(s: Seq<char>, len: nat) -> Seq<char> {
    s + crate::text::repeated('0', (len - s.len()) as nat)
}

proof fn lemma_extended(s: Seq<char>, len: nat)
    requires
        all_digits(s),
        s.len() <= len,
    ensures
        extended(s, len).len() == len,
        all_digits(extended(s, len)),
        nat_of(extended(s, len)) == nat_of(s) * pow(10, (len - s.len()) as nat),
{
    let zeros = crate::text::repeated('0', (len - s.len()) as nat);
    lemma_nat_of_concat(s, zeros);
    lemma_nat_of_zeros(zeros);
    assert forall|i: int| 0 <= i < len implies is_digit(#[trigger] extended(s, len)[i]) by {
        if i < s.len() {
            assert(is_digit(s[i]));
        }
    }
}

/// A number whose first digit stands further left is the greater one.
proof fn lemma_position_decides(a: nat, la: nat, ea: int, b: nat, lb: nat, eb: int, unit: int)
    requires
        a < pow(10, la),
        lb > 0,
        pow(10, (lb - 1) as nat) <= b,
        unit <= ea,
        unit <= eb,
        ea + la < eb + lb,
    ensures
        a * pow(10, (ea - unit) as nat) < b * pow(10, (eb - unit) as nat),
{
    let pa = pow(10, (ea - unit) as nat);
    let pb = pow(10, (eb - unit) as nat);
    lemma_pow_positive(10, (ea - unit) as nat);
    lemma_pow_positive(10, (eb - unit) as nat);
    let x = pow(10, la);
    let y = pow(10, (lb - 1) as nat);
    lemma_pow_adds(10, la, (ea - unit) as nat);
    lemma_pow_adds(10, (lb - 1) as nat, (eb - unit) as nat);
    lemma_pow_increases(10, (la + (ea - unit)) as nat, ((lb - 1) + (eb - unit)) as nat);
    assert(a * pa < x * pa) by (nonlinear_arith)
        requires
            a < x,
            pa > 0,
    ;
    assert(y * pb <= b * pb) by (nonlinear_arith)
        requires
            y <= b,
            pb > 0,
    ;
}

/// Whether the absolute value of `a` is at most that of `b`.
pub(crate) fn magnitude_at_most(a: &Decimal, b: &Decimal) -> (res: bool)
    requires
        a.wf(),
        b.wf(),
    ensures
        res == (magnitude_in(a@, common_unit(a@, b@)) <= magnitude_in(b@, common_unit(a@, b@))),
{
    let za = leading_zeros(&a.digits);
    let zb = leading_zeros(&b.digits);
    let la: usize = a.digits.len() - za;
    let lb: usize = b.digits.len() - zb;
    let ghost sa = a.digits@.skip(za as int);
    let ghost sb = b.digits@.skip(zb as int);
    let ghost unit = common_unit(a@, b@);
    proof {
        lemma_pow_positive(10, (a.exponent - unit) as nat);
        lemma_pow_positive(10, (b.exponent - unit) as nat);
        lemma_nat_of_below(sa);
        lemma_nat_of_below(sb);
    }
    if la == 0 {
        assert(sa =~= Seq::empty());
        assert(magnitude_in(a@, unit) == 0) by (nonlinear_arith)
            requires
                magnitude_in(a@, unit) == nat_of(sa) * pow(10, (a.exponent - unit) as nat),
                nat_of(sa) == 0,
        ;
        assert(magnitude_in(b@, unit) >= 0) by (nonlinear_arith)
            requires
                magnitude_in(b@, unit) == nat_of(sb) * pow(10, (b.exponent - unit) as nat),
                pow(10, (b.exponent - unit) as nat) > 0,
        ;
        return true;
    }
    proof {
        lemma_nat_of_at_least(sa);
        lemma_pow_positive(10, (la - 1) as nat);
    }
    if lb == 0 {
        assert(sb =~= Seq::empty());
        assert(magnitude_in(b@, unit) == 0) by (nonlinear_arith)
            requires
                magnitude_in(b@, unit) == nat_of(sb) * pow(10, (b.exponent - unit) as nat),
                nat_of(sb) == 0,
        ;
        assert(magnitude_in(a@, unit) > 0) by (nonlinear_arith)
            requires
                magnitude_in(a@, unit) == nat_of(sa) * pow(10, (a.exponent - unit) as nat),
                pow(10, (a.exponent - unit) as nat) > 0,
                nat_of(sa) > 0,
        ;
        return false;
    }
    proof {
        lemma_nat_of_at_least(sb);
    }
    let pa: i128 = a.exponent + la as i128;
    let pb: i128 = b.exponent + lb as i128;
    if pa != pb {
        proof {
            if pa < pb {
                lemma_position_decides(
                    nat_of(sa),
                    la as nat,
                    a.exponent as int,
                    nat_of(sb),
                    lb as nat,
                    b.exponent as int,
                    unit,
                );
            } else {
                lemma_position_decides(
                    nat_of(sb),
                    lb as nat,
                    b.exponent as int,
                    nat_of(sa),
                    la as nat,
                    a.exponent as int,
                    unit,
                );
            }
        }
        return pa < pb;
    }
    let n: usize = if la < lb {
        lb
    } else {
        la
    };
    let ghost xa = extended(sa, n as nat);
    let ghost xb = extended(sb, n as nat);
    proof {
        lemma_extended(sa, n as nat);
        lemma_extended(sb, n as nat);
    }
    let mut i: usize = 0;
    while i < n
        invariant
            i <= n,
            la <= n,
            lb <= n,
            la + za == a.digits@.len() <= usize::MAX,
            lb + zb == b.digits@.len() <= usize::MAX,
            sa == a.digits@.skip(za as int),
            sb == b.digits@.skip(zb as int),
            xa == extended(sa, n as nat),
            xb == extended(sb, n as nat),
            xa.len() == n,
            xb.len() == n,
            all_digits(xa),
            all_digits(xb),
            magnitude_in(a@, unit) == nat_of(xa),
            magnitude_in(b@, unit) == nat_of(xb),
            unit == common_unit(a@, b@),
            forall|k: int| 0 <= k < i ==> xa[k] == xb[k],
        decreases n - i,
    {
        let ca = if i < la {
            a.digits[za + i]
        } else {
            '0'
        };
        let cb = if i < lb {
            b.digits[zb + i]
        } else {
            '0'
        };
        assert(ca == xa[i as int]);
        assert(cb == xb[i as int]);
        if ca != cb {
            proof {
                assert(xa.take(i as int) =~= xb.take(i as int));
                if ca < cb {
                    lemma_first_difference(xa, xb, i as int);
                } else {
                    lemma_first_difference(xb, xa, i as int);
                }
            }
            return ca < cb;
        }
        i += 1;
    }
    assert(xa =~= xb);
    true
}

impl Decimal {
    /// Whether this number is at most `other`.
    pub fn is_at_most(&self, other: &Decimal) -> (res: bool)
        requires
            self.wf(),
            other.wf(),
        ensures
            res == at_most(self@, other@),
    {
        let ghost unit = common_unit(self@, other@);
        proof {
            lemma_pow_positive(10, (self.exponent - unit) as nat);
            lemma_pow_positive(10, (other.exponent - unit) as nat);
            let x = nat_of(self@.digits) as int;
            let y = nat_of(other@.digits) as int;
            let p = pow(10, (self.exponent - unit) as nat);
            let q = pow(10, (other.exponent - unit) as nat);
            assert(x * p >= 0) by (nonlinear_arith)
                requires
                    x >= 0,
                    p > 0,
            ;
            assert(y * q >= 0) by (nonlinear_arith)
                requires
                    y >= 0,
                    q > 0,
            ;
            assert(x * p == 0 <==> x == 0) by (nonlinear_arith)
                requires
                    p > 0,
            ;
            assert(y * q == 0 <==> y == 0) by (nonlinear_arith)
                requires
                    q > 0,
            ;
        }
        if self.negative {
            if other.negative {
                assert(common_unit(other@, self@) == unit);
                magnitude_at_most(other, self)
            } else {
                true
            }
        } else if other.negative {
            self.is_zero() && other.is_zero()
        } else {
            magnitude_at_most(self, other)
        }
    }

    /// Whether this number is zero.
    pub(crate) fn is_zero(&self) -> (res: bool)
        requires
            self.wf(),
        ensures
            res == (nat_of(self@.digits) == 0),
    {
        let n = leading_zeros(&self.digits);
        let ghost rest = self.digits@.skip(n as int);
        proof {
            if rest.len() > 0 {
                lemma_nat_of_at_least(rest);
                lemma_pow_positive(10, (rest.len() - 1) as nat);
            } else {
                assert(rest =~= Seq::empty());
            }
        }
        n == self.digits.len()
    }
}

// ---------------------------------------------------------------------------
// Arithmetic
// ---------------------------------------------------------------------------

/// No text of a double asks for an exponent beyond this bound.
pub const DOUBLE_EXPONENT: i128 = 10_000;

/// The exponent of a number is one that the text of a double can ask for.
pub open spec fn fits_double(d: DecimalView) -> bool {
    -DOUBLE_EXPONENT <= d.exponent <= DOUBLE_EXPONENT
}

/// The decimal number that `s` writes, where a double can be written so.
pub open spec fn read_double(s: Seq<char>) -> Option<DecimalView> {
    match read_decimal(s) {
        Some(d) => if fits_double(d) {
            Some(d)
        } else {
            None
        },
        None => None,
    }
}

/// The decimal number that `s` writes, where a double can be written so.
pub fn parse_double(s: &str) -> (res: Option<Decimal>)
    ensures
        match res {
            Some(d) => d.wf() && read_double(s@) == Some(d@),
            None => read_double(s@) is None,
        },
{
    match parse_decimal(s) {
        Some(d) => if -DOUBLE_EXPONENT <= d.exponent && d.exponent <= DOUBLE_EXPONENT {
            Some(d)
        } else {
            None
        },
        None => None,
    }
}

/// The last `i` digits of `s`, or all of them where there are fewer.
spec fn low_digits(s: Seq<char>, i: nat) -> Seq<char> {
    if i <= s.len() {
        s.skip(s.len() - i)
    } else {
        s
    }
}

/// The digit in front of the last `i` digits of `s`.
spec fn next_digit(s: Seq<char>, i: nat) -> char {
    if i < s.len() {
        s[s.len() - 1 - i]
    } else {
        '0'
    }
}

proof fn lemma_low_digits(s: Seq<char>, i: nat)
    requires
        all_digits(s),
    ensures
        is_digit(next_digit(s, i)),
        nat_of(low_digits(s, i + 1)) == digit_value(next_digit(s, i)) * pow(10, i) + nat_of(
            low_digits(s, i),
        ),
{
    if i < s.len() {
        let c = next_digit(s, i);
        assert(is_digit(s[s.len() - 1 - i]));
        assert(low_digits(s, i + 1) =~= seq![c] + low_digits(s, i));
        lemma_nat_of_concat(seq![c], low_digits(s, i));
        assert(seq![c].drop_last() =~= Seq::empty());
        assert(nat_of(seq![c].drop_last()) == 0);
        assert(nat_of(seq![c]) == digit_value(c));
    } else {
        assert(low_digits(s, i + 1) =~= low_digits(s, i));
        assert(digit_value('0') == 0);
        assert(0 * pow(10, i) == 0) by (nonlinear_arith);
    }
}

/// The digit in front of the last `i` digits of `s`.
fn digit_from_end(s: &Vec<char>, i: usize) -> (c: char)
    ensures
        c == next_digit(s@, i as nat),
{
    if i < s.len() {
        s[s.len() - 1 - i]
    } else {
        '0'
    }
}

/// The character of a digit.
fn digit_of(d: u8) -> (c: char)
    requires
        d < 10,
    ensures
        is_digit(c),
        digit_value(c) == d,
{
    match d {
        0 => '0',
        1 => '1',
        2 => '2',
        3 => '3',
        4 => '4',
        5 => '5',
        6 => '6',
        7 => '7',
        8 => '8',
        _ => '9',
    }
}

/// `n` zeros.
fn zeros(n: usize) -> (res: Vec<char>)
    ensures
        res@.len() == n,
{
    let mut out: Vec<char> = Vec::new();
    for i in 0..n
        invariant
            out@.len() == i,
    {
        out.push('0');
    }
    out
}

/// A digit is put in front of the last `i` digits of a number.
proof fn lemma_digit_put(before: Seq<char>, after: Seq<char>, i: int, c: char)
    requires
        0 <= i < before.len(),
        is_digit(c),
        all_digits(before.skip(before.len() - i)),
        after == before.update(before.len() - 1 - i, c),
    ensures
        all_digits(after.skip(after.len() - (i + 1))),
        nat_of(after.skip(after.len() - (i + 1))) == digit_value(c) * pow(10, i as nat) + nat_of(
            before.skip(before.len() - i),
        ),
{
    let old_tail = before.skip(before.len() - i);
    let tail = after.skip(after.len() - (i + 1));
    assert(tail =~= old_tail.insert(0, c));
    lemma_digit_in_front(c, old_tail, tail);
}

/// The digits of `front` in front of those of `back`.
fn digits_in_front(front: Vec<char>, back: &Vec<char>) -> (res: Vec<char>)
    requires
        all_digits(front@),
        all_digits(back@),
    ensures
        all_digits(res@),
        nat_of(res@) == nat_of(front@) * pow(10, back@.len()) + nat_of(back@),
{
    let mut out = front;
    for i in 0..back.len()
        invariant
            out@ == front@ + back@.take(i as int),
    {
        out.push(back[i]);
        assert(out@ =~= front@ + back@.take(i + 1));
    }
    proof {
        assert(out@ =~= front@ + back@);
        lemma_nat_of_concat(front@, back@);
        assert forall|k: int| 0 <= k < out@.len() implies is_digit(#[trigger] out@[k]) by {
            if k < front@.len() {
                assert(is_digit(front@[k]));
            } else {
                assert(is_digit(back@[k - front@.len()]));
            }
        }
    }
    out
}

/// The digits of the sum of two numbers.
fn add_digits(a: &Vec<char>, b: &Vec<char>) -> (res: Vec<char>)
    requires
        all_digits(a@),
        all_digits(b@),
    ensures
        all_digits(res@),
        nat_of(res@) == nat_of(a@) + nat_of(b@),
{
    let n: usize = if a.len() <= b.len() {
        b.len()
    } else {
        a.len()
    };
    let mut out = zeros(n);
    let mut carry: u64 = 0;
    proof {
        lemma_pow0(10);
        assert(low_digits(a@, 0) =~= Seq::empty());
        assert(low_digits(b@, 0) =~= Seq::empty());
        assert(out@.skip(n as int) =~= Seq::empty());
    }
    for i in 0..n
        invariant
            all_digits(a@),
            all_digits(b@),
            out@.len() == n,
            all_digits(out@.skip(n - i)),
            carry <= 1,
            nat_of(low_digits(a@, i as nat)) + nat_of(low_digits(b@, i as nat)) == carry * pow(
                10,
                i as nat,
            ) + nat_of(out@.skip(n - i)),
    {
        proof {
            lemma_low_digits(a@, i as nat);
            lemma_low_digits(b@, i as nat);
        }
        let x = digit_number(digit_from_end(a, i));
        let y = digit_number(digit_from_end(b, i));
        let total: u64 = x as u64 + y as u64 + carry;
        let digit: u8 = (total % 10) as u8;
        let ghost before = out@;
        let ghost old_carry = carry;
        let c = digit_of(digit);
        out.set(n - 1 - i, c);
        carry = total / 10;
        proof {
            lemma_digit_put(before, out@, i as int, c);
            reveal(pow);
            let p = pow(10, i as nat);
            assert(pow(10, (i + 1) as nat) == 10 * p);
            assert(x * p + y * p + old_carry * p == carry * (10 * p) + digit * p)
                by (nonlinear_arith)
                requires
                    x + y + old_carry == 10 * carry + digit,
            ;
        }
    }
    proof {
        assert(low_digits(a@, n as nat) =~= a@);
        assert(low_digits(b@, n as nat) =~= b@);
        assert(out@.skip(0) =~= out@);
    }
    digits_in_front(digits_of_number(carry), &out)
}

/// The digits of the absolute value of `d` in units of ten to the power of `unit`.
fn digits_in(d: &Decimal, unit: i128) -> (res: Vec<char>)
    requires
        d.wf(),
        fits_double(d@),
        -DOUBLE_EXPONENT <= unit <= d.exponent,
    ensures
        all_digits(res@),
        nat_of(res@) == magnitude_in(d@, unit as int),
{
    let mut out: Vec<char> = Vec::new();
    for i in 0..d.digits.len()
        invariant
            out@ == d.digits@.take(i as int),
    {
        out.push(d.digits[i]);
        assert(out@ =~= d.digits@.take(i + 1));
    }
    assert(out@ =~= d.digits@);
    let n: usize = (d.exponent - unit) as usize;
    for i in 0..n
        invariant
            out@ == d.digits@ + crate::text::repeated('0', i as nat),
    {
        out.push('0');
        assert(out@ =~= d.digits@ + crate::text::repeated('0', (i + 1) as nat));
    }
    proof {
        lemma_extended(d.digits@, (d.digits@.len() + n) as nat);
        assert(out@ =~= extended(d.digits@, (d.digits@.len() + n) as nat));
    }
    out
}

/// The sum of the absolute values, in units of ten to the power of `unit`.
pub(crate) fn sum_in(a: &Decimal, b: &Decimal, unit: i128) -> (res: Decimal)
    requires
        a.wf(),
        b.wf(),
        fits_double(a@),
        fits_double(b@),
        -DOUBLE_EXPONENT <= unit <= a.exponent,
        unit <= b.exponent,
    ensures
        res.wf(),
        !res.negative,
        res.exponent == unit,
        magnitude_in(res@, unit as int) == magnitude_in(a@, unit as int) + magnitude_in(
            b@,
            unit as int,
        ),
{
    let digits = add_digits(&digits_in(a, unit), &digits_in(b, unit));
    let res = Decimal { negative: false, digits, exponent: unit };
    proof {
        lemma_pow0(10);
        assert(nat_of(digits@) * 1 == nat_of(digits@)) by (nonlinear_arith);
    }
    res
}

/// The digits of a number.
pub(crate) fn digits_of_number(n: u64) -> (res: Vec<char>)
    ensures
        all_digits(res@),
        nat_of(res@) == n,
{
    let mut out: Vec<char> = Vec::new();
    let mut rest: u64 = n;
    proof {
        lemma_pow0(10);
    }
    while rest > 0
        invariant
            all_digits(out@),
            n == rest * pow(10, out@.len()) + nat_of(out@),
        decreases rest,
    {
        let digit: u8 = (rest % 10) as u8;
        let ghost before = out@;
        let ghost old_rest = rest;
        let c = digit_of(digit);
        out.insert(0, c);
        rest = rest / 10;
        proof {
            lemma_digit_in_front(c, before, out@);
            reveal(pow);
            let p = pow(10, before.len());
            assert(pow(10, out@.len()) == 10 * p);
            assert(old_rest * p == rest * (10 * p) + digit * p) by (nonlinear_arith)
                requires
                    old_rest == 10 * rest + digit,
            ;
        }
    }
    assert(0 * pow(10, out@.len()) == 0) by (nonlinear_arith);
    out
}

proof fn lemma_digit_in_front(c: char, before: Seq<char>, after: Seq<char>)
    requires
        is_digit(c),
        all_digits(before),
        after =~= before.insert(0, c),
    ensures
        all_digits(after),
        nat_of(after) == digit_value(c) * pow(10, before.len()) + nat_of(before),
{
    assert(after =~= seq![c] + before);
    lemma_nat_of_concat(seq![c], before);
    assert(seq![c].drop_last() =~= Seq::empty());
    assert(nat_of(seq![c].drop_last()) == 0);
    assert(nat_of(seq![c]) == digit_value(c));
    assert forall|k: int| 0 <= k < after.len() implies is_digit(#[trigger] after[k]) by {
        if k > 0 {
            assert(is_digit(before[k - 1]));
        }
    }
}

/// The digits of `k` times a number.
pub(crate) fn times_digits(a: &Vec<char>, k: u64) -> (res: Vec<char>)
    requires
        all_digits(a@),
        0 < k <= 2_000_000_000,
    ensures
        all_digits(res@),
        nat_of(res@) == k * nat_of(a@),
{
    let n = a.len();
    let mut out = zeros(n);
    let mut carry: u64 = 0;
    proof {
        lemma_pow0(10);
        assert(low_digits(a@, 0) =~= Seq::empty());
        assert(out@.skip(n as int) =~= Seq::empty());
        assert(k * nat_of(low_digits(a@, 0)) == 0) by (nonlinear_arith)
            requires
                nat_of(low_digits(a@, 0)) == 0,
        ;
    }
    for i in 0..n
        invariant
            n == a@.len(),
            all_digits(a@),
            0 < k <= 2_000_000_000,
            out@.len() == n,
            all_digits(out@.skip(n - i)),
            carry < k,
            k * nat_of(low_digits(a@, i as nat)) == carry * pow(10, i as nat) + nat_of(
                out@.skip(n - i),
            ),
    {
        proof {
            lemma_low_digits(a@, i as nat);
        }
        let x = digit_number(digit_from_end(a, i));
        assert(k * x <= 9 * k) by (nonlinear_arith)
            requires
                0 <= x <= 9,
                k > 0,
        ;
        assert(k * x >= 0) by (nonlinear_arith)
            requires
                0 <= x,
                k > 0,
        ;
        let total: u64 = k * x as u64 + carry;
        let digit: u8 = (total % 10) as u8;
        let ghost before = out@;
        let ghost old_carry = carry;
        let c = digit_of(digit);
        out.set(n - 1 - i, c);
        carry = total / 10;
        proof {
            lemma_digit_put(before, out@, i as int, c);
            reveal(pow);
            let p = pow(10, i as nat);
            let low = nat_of(low_digits(a@, i as nat)) as int;
            assert(pow(10, (i + 1) as nat) == 10 * p);
            assert(k * (x * p + low) == carry * (10 * p) + (digit * p + (k * low - old_carry * p)))
                by (nonlinear_arith)
                requires
                    k * x + old_carry == 10 * carry + digit,
            ;
        }
    }
    proof {
        assert(low_digits(a@, a@.len()) =~= a@);
        assert(out@.skip(0) =~= out@);
    }
    digits_in_front(digits_of_number(carry), &out)
}

// ---------------------------------------------------------------------------
// Writing
// ---------------------------------------------------------------------------

/// The number of zeros in front of `digits`.
pub open spec fn zeros_in_front(digits: Seq<char>) -> nat
    decreases digits.len(),
{
    if digits.len() > 0 && digits[0] == '0' {
        1 + zeros_in_front(digits.drop_first())
    } else {
        0
    }
}

/// The number of zeros at the end of `digits`.
pub open spec fn zeros_at_end(digits: Seq<char>) -> nat
    decreases digits.len(),
{
    if digits.len() > 0 && digits.last() == '0' {
        1 + zeros_at_end(digits.drop_last())
    } else {
        0
    }
}

/// The digits without the zeros in front of them.
pub open spec fn significant(digits: Seq<char>) -> Seq<char> {
    digits.skip(zeros_in_front(digits) as int)
}

/// The sign of a number as text.
pub open spec fn sign_text(negative: bool) -> Seq<char> {
    if negative {
        "-"@
    } else {
        ""@
    }
}

/// A number as a JSON number with an exponent, such as `14e-1`.
pub open spec fn scientific(d: DecimalView) -> Seq<char> {
    sign_text(d.negative) + (if significant(d.digits).len() == 0 {
        "0"@
    } else {
        significant(d.digits)
    }) + "e"@ + crate::text::int_dec(d.exponent)
}

/// The exponents for which a number is written out with all its zeros.
pub open spec fn writes_out(exponent: int) -> bool {
    -1_000_000 <= exponent <= 1_000_000
}

/// Digits without zeros at either end, with the point put where `exponent` says.
pub open spec fn pointed(digits: Seq<char>, exponent: int) -> Seq<char> {
    if digits.len() == 0 {
        "0"@
    } else if exponent >= 0 {
        digits + crate::text::repeated('0', exponent as nat)
    } else if digits.len() + exponent > 0 {
        digits.take(digits.len() + exponent) + "."@ + digits.skip(digits.len() + exponent)
    } else {
        "0."@ + crate::text::repeated('0', (-exponent - digits.len()) as nat) + digits
    }
}

/// A number written out without an exponent and without needless zeros, such as `1.4` or `9`.
pub open spec fn positional(d: DecimalView) -> Seq<char> {
    let digits = significant(d.digits);
    let end = zeros_at_end(digits);
    sign_text(d.negative) + pointed(
        digits.take(digits.len() - end),
        d.exponent + end,
    )
}

proof fn lemma_zeros_in_front(digits: Seq<char>, n: int)
    requires
        0 <= n <= digits.len(),
        forall|i: int| 0 <= i < n ==> digits[i] == '0',
        n < digits.len() ==> digits[n] != '0',
    ensures
        zeros_in_front(digits) == n,
    decreases n,
{
    if n > 0 {
        lemma_zeros_in_front(digits.drop_first(), n - 1);
    }
}

proof fn lemma_zeros_at_end(digits: Seq<char>, n: int)
    requires
        0 <= n <= digits.len(),
        forall|i: int| digits.len() - n <= i < digits.len() ==> digits[i] == '0',
        n < digits.len() ==> digits[digits.len() - n - 1] != '0',
    ensures
        zeros_at_end(digits) == n,
    decreases n,
{
    if n > 0 {
        lemma_zeros_at_end(digits.drop_last(), n - 1);
    }
}

/// The number of zeros in front of `digits`.
fn count_zeros_in_front(digits: &Vec<char>) -> (n: usize)
    ensures
        n == zeros_in_front(digits@),
        n <= digits@.len(),
{
    let mut n: usize = 0;
    while n < digits.len() && digits[n] == '0'
        invariant
            n <= digits@.len(),
            forall|i: int| 0 <= i < n ==> digits@[i] == '0',
        decreases digits@.len() - n,
    {
        n += 1;
    }
    proof {
        lemma_zeros_in_front(digits@, n as int);
    }
    n
}

/// Appends `digits` with the point put where `exponent` says.
fn push_pointed(out: &mut String, digits: &[char], exponent: i128)
    requires
        exponent >= -1_000_000,
    ensures
        final(out)@ == old(out)@ + pointed(digits@, exponent as int),
{
    let ghost start = out@;
    let n: usize = digits.len();
    if n == 0 {
        out.append("0");
    } else if exponent >= 0 {
        out.append(slice_text(digits, 0, n).as_str());
        let ghost before = out@;
        let mut left: i128 = exponent;
        assert(before =~= before + crate::text::repeated('0', 0));
        while left > 0
            invariant
                0 <= left <= exponent,
                out@ == before + crate::text::repeated('0', (exponent - left) as nat),
            decreases left,
        {
            out.push('0');
            left = left - 1;
            assert(out@ =~= before + crate::text::repeated('0', (exponent - left) as nat));
        }
        assert(digits@.subrange(0, n as int) =~= digits@);
        assert(out@ =~= start + pointed(digits@, exponent as int));
    } else {
        let places: usize = (-exponent) as usize;
        if n > places {
            let at: usize = n - places;
            out.append(slice_text(digits, 0, at).as_str());
            out.append(".");
            out.append(slice_text(digits, at, n).as_str());
            assert(digits@.take(at as int) =~= digits@.subrange(0, at as int));
            assert(digits@.skip(at as int) =~= digits@.subrange(at as int, n as int));
            assert(out@ =~= start + pointed(digits@, exponent as int));
        } else {
            out.append("0.");
            push_repeated(out, '0', places - n);
            out.append(slice_text(digits, 0, n).as_str());
            assert(digits@.subrange(0, n as int) =~= digits@);
            assert(out@ =~= start + pointed(digits@, exponent as int));
        }
    }
}

impl Decimal {
    /// The number as a JSON number with an exponent.
    pub fn scientific_text(&self) -> (res: String)
        requires
            self.wf(),
        ensures
            res@ == scientific(self@),
    {
        let mut out = if self.negative {
            "-".to_owned()
        } else {
            "".to_owned()
        };
        let from = count_zeros_in_front(&self.digits);
        let ghost kept = significant(self@.digits);
        assert(kept == self.digits@.subrange(from as int, self.digits@.len() as int));
        if from == self.digits.len() {
            out.append("0");
        } else {
            out.append(slice_text(&self.digits, from, self.digits.len()).as_str());
        }
        out.append("e");
        push_int(&mut out, self.exponent);
        out
    }

    /// The number written out without an exponent; `None` where that would take more than a
    /// million zeros.
    pub fn positional_text(&self) -> (res: Option<String>)
        requires
            self.wf(),
        ensures
            res matches Some(t) ==> t@ == positional(self@) && writes_out(self@.exponent),
            res is None ==> !writes_out(self@.exponent),
    {
        if self.exponent < -1_000_000 || self.exponent > 1_000_000 {
            return None;
        }
        let from = count_zeros_in_front(&self.digits);
        let ghost kept = significant(self@.digits);
        let mut to: usize = self.digits.len();
        while to > from && self.digits[to - 1] == '0'
            invariant
                from <= to <= self.digits@.len(),
                kept == self.digits@.skip(from as int),
                forall|i: int| to <= i < self.digits@.len() ==> self.digits@[i] == '0',
            decreases to,
        {
            to -= 1;
        }
        let ghost end = self.digits@.len() - to;
        proof {
            lemma_zeros_at_end(kept, end);
        }
        let ghost digits = kept.take(kept.len() - end);
        assert(digits =~= self.digits@.subrange(from as int, to as int));
        let exponent: i128 = self.exponent + (self.digits.len() - to) as i128;
        let mut inner: Vec<char> = Vec::new();
        for i in from..to
            invariant
                from <= to <= self.digits@.len(),
                inner@ == self.digits@.subrange(from as int, i as int),
        {
            inner.push(self.digits[i]);
            assert(inner@ =~= self.digits@.subrange(from as int, i + 1));
        }
        let mut out = if self.negative {
            "-".to_owned()
        } else {
            "".to_owned()
        };
        push_pointed(&mut out, &inner, exponent);
        Some(out)
    }
}

// ---------------------------------------------------------------------------
// Words for numbers that are not finite
// ---------------------------------------------------------------------------

/// The text of the double that a word such as `-inf` or `NaN` stands for.
pub open spec fn read_word(s: Seq<char>) -> Option<Seq<char>> {
    let word = crate::text::ascii_lower(s.skip(behind_sign(s, 0)));
    if word == "inf"@ || word == "infinity"@ {
        Some(
            if s[0] == '-' {
                "-inf"@
            } else {
                "inf"@
            },
        )
    } else if word == "nan"@ {
        Some("NaN"@)
    } else {
        None
    }
}

/// The text of the double that a word such as `-inf` or `NaN` stands for.
pub fn parse_word(s: &str) -> (res: Option<String>)
    ensures
        crate::json::opt_text(res) == read_word(s@),
{
    let chars = chars_of(s);
    let start: usize = if chars.len() > 0 && (chars[0] == '+' || chars[0] == '-') {
        1
    } else {
        0
    };
    let body = slice_text(&chars, start, chars.len());
    assert(body@ =~= s@.skip(behind_sign(s@, 0)));
    let word = ascii_lower_text(body.as_str());
    let word = word.as_str();
    if same_text(word, "inf") || same_text(word, "infinity") {
        proof {
            if s@.len() == 0 {
                assert(word@.len() == 0);
                reveal_strlit("inf");
                reveal_strlit("infinity");
            }
        }
        if chars[0] == '-' {
            Some("-inf".to_owned())
        } else {
            Some("inf".to_owned())
        }
    } else if same_text(word, "nan") {
        Some("NaN".to_owned())
    } else {
        None
    }
}

// ---------------------------------------------------------------------------
// What is written is read back
// ---------------------------------------------------------------------------

proof fn lemma_digits_run(s: Seq<char>, from: int, end: int)
    requires
        0 <= from <= end <= s.len(),
        forall|i: int| from <= i < end ==> is_digit(#[trigger] s[i]),
        end < s.len() ==> !is_digit(s[end]),
    ensures
        digits_end(s, from) == end,
    decreases end - from,
{
    if from < end {
        lemma_digits_run(s, from + 1, end);
    }
}

/// An optional sign, digits and an exponent are read as the number that they write.
#[verifier::rlimit(40)]
pub proof fn law_exponent_form_is_read(negative: bool, digits: Seq<char>, exponent: int)
    requires
        digits.len() > 0,
        all_digits(digits),
        -EXPONENT_LIMIT <= exponent <= EXPONENT_LIMIT,
    ensures
        read_decimal(sign_text(negative) + digits + "e"@ + crate::text::int_dec(exponent)) == Some(
            DecimalView { negative, digits, exponent },
        ),
{
    reveal_strlit("-");
    reveal_strlit("");
    reveal_strlit("e");
    let sign = sign_text(negative);
    let power = crate::text::int_dec(exponent);
    let size: nat = if exponent < 0 {
        (-exponent) as nat
    } else {
        exponent as nat
    };
    let numeral = crate::text::dec(size);
    lemma_dec_digits(size);
    let s = sign + digits + "e"@ + power;
    let start = sign.len() as int;
    let point = (sign.len() + digits.len()) as int;
    assert forall|i: int| start <= i < point implies is_digit(#[trigger] s[i]) by {
        assert(s[i] == digits[i - start]);
    }
    assert(s[point] == 'e');
    assert(is_digit(s[start])) by {
        assert(s[start] == digits[0]);
    }
    assert(negative ==> s[0] == '-');
    assert(behind_sign(s, 0) == start);
    lemma_digits_run(s, start, point);
    assert(s.subrange(start, point) + s.subrange(point, point) =~= digits);
    let from = point + 1 + (power.len() - numeral.len());
    assert(s.len() == point + 1 + power.len());
    assert forall|i: int| from <= i < s.len() implies is_digit(#[trigger] s[i]) by {
        assert(s[i] == numeral[i - from]);
    }
    if exponent < 0 {
        assert(s[point + 1] == power[0]);
        assert(power[0] == '-');
    } else {
        assert(s[point + 1] == numeral[0]);
        assert(is_digit(s[point + 1]));
    }
    assert(behind_sign(s, point + 1) == from);
    lemma_digits_run(s, from, s.len() as int);
    assert(s.subrange(from, s.len() as int) =~= numeral);
    assert(read_exponent(s, point) == Some(exponent));
    assert(!negative ==> s[0] != '-') by {
        if !negative {
            assert(s[0] == digits[0]);
            assert(is_digit(digits[0]));
        }
    }
}

/// A text for a sign: none, plus or minus.
pub open spec fn is_sign(sign: Seq<char>) -> bool {
    sign == Seq::<char>::empty() || sign == seq!['+'] || sign == seq!['-']
}

/// Whatever the signs and the mark of the exponent, digits with an exponent are read as the number
/// that they write.
#[verifier::rlimit(40)]
pub proof fn law_every_exponent_form_is_read(
    sign: Seq<char>,
    digits: Seq<char>,
    mark: char,
    power_sign: Seq<char>,
    power: Seq<char>,
)
    requires
        is_sign(sign),
        is_sign(power_sign),
        digits.len() > 0,
        all_digits(digits),
        mark == 'e' || mark == 'E',
        power.len() > 0,
        all_digits(power),
        nat_of(power) <= EXPONENT_LIMIT,
    ensures
        read_decimal(sign + digits + seq![mark] + power_sign + power) == Some(
            DecimalView {
                negative: sign == seq!['-'],
                digits,
                exponent: if power_sign == seq!['-'] {
                    -(nat_of(power) as int)
                } else {
                    nat_of(power) as int
                },
            },
        ),
        read_decimal(sign + digits + seq![mark] + power_sign) is None,
{
    let s = sign + digits + seq![mark] + power_sign + power;
    let bare = sign + digits + seq![mark] + power_sign;
    let start = sign.len() as int;
    let point = (sign.len() + digits.len()) as int;
    let from = point + 1 + power_sign.len();
    assert(is_digit(digits[0]) && is_digit(power[0]));
    assert forall|i: int| start <= i < point implies is_digit(#[trigger] s[i]) && s[i]
        == bare[i] by {
        assert(s[i] == digits[i - start]);
    }
    assert forall|i: int| start <= i < point implies is_digit(#[trigger] bare[i]) by {
        assert(bare[i] == digits[i - start]);
    }
    assert(s[point] == mark && bare[point] == mark);
    assert(s[start] == digits[0] && bare[start] == digits[0]);
    if sign.len() > 0 {
        assert(s[0] == sign[0] && bare[0] == sign[0]);
    }
    lemma_sign(sign, s, digits[0]);
    assert(behind_sign(s, 0) == start && behind_sign(bare, 0) == start);
    lemma_digits_run(s, start, point);
    lemma_digits_run(bare, start, point);
    assert(s.subrange(start, point) + s.subrange(point, point) =~= digits);
    assert(s.len() == from + power.len());
    assert forall|i: int| from <= i < s.len() implies is_digit(#[trigger] s[i]) by {
        assert(s[i] == power[i - from]);
    }
    assert(s[from] == power[0]);
    if power_sign.len() > 0 {
        assert(s[point + 1] == power_sign[0]);
        assert(bare[point + 1] == power_sign[0]);
    }
    assert(behind_sign(s, point + 1) == from);
    lemma_digits_run(s, from, s.len() as int);
    assert(s.subrange(from, s.len() as int) =~= power);
    assert(s[point + 1] == '-' <==> power_sign == seq!['-']) by {
        if s[point + 1] == '-' {
            assert(power_sign =~= seq!['-']);
        }
    }
    assert(bare.len() == from);
    assert(behind_sign(bare, point + 1) == from);
    assert(digits_end(bare, from) == from);
    assert(read_exponent(bare, point) is None);
}

proof fn lemma_sign(sign: Seq<char>, s: Seq<char>, first: char)
    requires
        is_sign(sign),
        is_digit(first),
        s.len() > sign.len(),
        s[sign.len() as int] == first,
        sign.len() > 0 ==> s[0] == sign[0],
    ensures
        behind_sign(s, 0) == sign.len(),
        s[0] == '-' <==> sign == seq!['-'],
{
    if s[0] == '-' {
        assert(sign =~= seq!['-']);
    }
}

/// A point may stand among digits, before them or behind them; the digits behind it count as many
/// powers of ten less. A sign or a point without a digit is no number.
#[verifier::rlimit(40)]
pub proof fn law_every_point_form_is_read(sign: Seq<char>, whole: Seq<char>, fraction: Seq<char>)
    requires
        is_sign(sign),
        all_digits(whole),
        all_digits(fraction),
    ensures
        whole.len() + fraction.len() > 0 ==> read_decimal(sign + whole + seq!['.'] + fraction)
            == Some(
            DecimalView {
                negative: sign == seq!['-'],
                digits: whole + fraction,
                exponent: -(fraction.len() as int),
            },
        ),
        whole.len() + fraction.len() == 0 ==> read_decimal(sign + whole + seq!['.'] + fraction)
            is None,
        read_decimal(sign) is None,
{
    let s = sign + whole + seq!['.'] + fraction;
    let start = sign.len() as int;
    let point = (sign.len() + whole.len()) as int;
    assert forall|i: int| start <= i < point implies is_digit(#[trigger] s[i]) by {
        assert(s[i] == whole[i - start]);
    }
    assert(s[point] == '.');
    if whole.len() > 0 {
        assert(s[start] == whole[0]);
    }
    if sign.len() > 0 {
        assert(s[0] == sign[0]);
    }
    assert(behind_sign(s, 0) == start);
    assert(s[0] == '-' <==> sign == seq!['-']) by {
        if s[0] == '-' {
            assert(sign =~= seq!['-']);
        }
    }
    lemma_digits_run(s, start, point);
    assert(s.len() == point + 1 + fraction.len());
    assert forall|i: int| point + 1 <= i < s.len() implies is_digit(#[trigger] s[i]) by {
        assert(s[i] == fraction[i - point - 1]);
    }
    lemma_digits_run(s, point + 1, s.len() as int);
    assert(s.subrange(start, point) + s.subrange(point + 1, s.len() as int) =~= whole + fraction);
    assert(behind_sign(sign, 0) == sign.len());
    assert(digits_end(sign, sign.len() as int) == sign.len());
}

/// An optional sign and digits, with a point among them or without one, are read as the number
/// that they write: the digits behind the point count as many powers of ten less.
#[verifier::rlimit(40)]
pub proof fn law_point_form_is_read(negative: bool, whole: Seq<char>, fraction: Seq<char>)
    requires
        whole.len() > 0,
        all_digits(whole),
        all_digits(fraction),
    ensures
        read_decimal(sign_text(negative) + whole) == Some(
            DecimalView { negative, digits: whole, exponent: 0 },
        ),
        read_decimal(sign_text(negative) + whole + "."@ + fraction) == Some(
            DecimalView { negative, digits: whole + fraction, exponent: -(fraction.len() as int) },
        ),
{
    reveal_strlit("-");
    reveal_strlit("");
    reveal_strlit(".");
    let sign = sign_text(negative);
    let start = sign.len() as int;
    let point = (sign.len() + whole.len()) as int;
    let a = sign + whole;
    assert(is_digit(whole[0]));
    assert forall|i: int| start <= i < point implies is_digit(#[trigger] a[i]) by {
        assert(a[i] == whole[i - start]);
    }
    assert(a[start] == whole[0]);
    assert(behind_sign(a, 0) == start);
    lemma_digits_run(a, start, point);
    assert(a.subrange(start, point) + a.subrange(point, point) =~= whole);
    let b = a + "."@ + fraction;
    assert forall|i: int| start <= i < point implies is_digit(#[trigger] b[i]) by {
        assert(b[i] == whole[i - start]);
    }
    assert(b[start] == whole[0]);
    assert(negative ==> b[0] == '-');
    assert(b[point] == '.');
    assert(behind_sign(b, 0) == start);
    lemma_digits_run(b, start, point);
    assert(b.len() == point + 1 + fraction.len());
    assert forall|i: int| point + 1 <= i < b.len() implies is_digit(#[trigger] b[i]) by {
        assert(b[i] == fraction[i - point - 1]);
    }
    lemma_digits_run(b, point + 1, b.len() as int);
    assert(b.subrange(start, point) + b.subrange(point + 1, b.len() as int) =~= whole + fraction);
}

/// The digits without the zeros in front are digits and write the same number, with no zero in
/// front.
proof fn lemma_significant(digits: Seq<char>)
    requires
        all_digits(digits),
    ensures
        zeros_in_front(digits) <= digits.len(),
        all_digits(significant(digits)),
        nat_of(significant(digits)) == nat_of(digits),
    decreases digits.len(),
{
    if digits.len() > 0 && digits[0] == '0' {
        let rest = digits.drop_first();
        assert forall|i: int| 0 <= i < rest.len() implies is_digit(#[trigger] rest[i]) by {
            assert(rest[i] == digits[i + 1]);
        }
        lemma_significant(rest);
        assert(significant(digits) =~= significant(rest));
        assert(digits =~= seq!['0'] + rest);
        lemma_nat_of_concat(seq!['0'], rest);
        lemma_nat_of_zeros(seq!['0']);
        let p = pow(10, rest.len());
        assert(0 * p == 0) by (nonlinear_arith);
    } else {
        assert(significant(digits) =~= digits);
    }
}

/// The form with an exponent is read back as the same number: with its sign, its exponent and
/// its digits, but for zeros in front of them.
pub proof fn law_scientific_reads_back(d: DecimalView)
    requires
        all_digits(d.digits),
        -EXPONENT_LIMIT <= d.exponent <= EXPONENT_LIMIT,
    ensures
        read_decimal(scientific(d)) matches Some(x) && x.negative == d.negative && x.exponent
            == d.exponent && nat_of(x.digits) == nat_of(d.digits),
{
    reveal_strlit("0");
    lemma_significant(d.digits);
    let digits = if significant(d.digits).len() == 0 {
        "0"@
    } else {
        significant(d.digits)
    };
    if significant(d.digits).len() == 0 {
        assert(nat_of(d.digits) == 0);
        lemma_nat_of_zeros("0"@);
        assert(all_digits("0"@));
    }
    law_exponent_form_is_read(d.negative, digits, d.exponent);
}

proof fn lemma_end_zeros(digits: Seq<char>)
    requires
        all_digits(digits),
    ensures
        zeros_at_end(digits) <= digits.len(),
        all_digits(digits.take(digits.len() - zeros_at_end(digits))),
        nat_of(digits) == nat_of(digits.take(digits.len() - zeros_at_end(digits))) * pow(
            10,
            zeros_at_end(digits),
        ),
    decreases digits.len(),
{
    if digits.len() > 0 && digits.last() == '0' {
        let front = digits.drop_last();
        assert forall|i: int| 0 <= i < front.len() implies is_digit(#[trigger] front[i]) by {
            assert(front[i] == digits[i]);
        }
        lemma_end_zeros(front);
        let n = zeros_at_end(front);
        let kept = front.take(front.len() - n);
        assert(digits.take(digits.len() - zeros_at_end(digits)) =~= kept);
        reveal(pow);
        let p = pow(10, n);
        assert(pow(10, n + 1) == 10 * p);
        let x = nat_of(kept) as int;
        assert((x * p) * 10 == x * (10 * p)) by (nonlinear_arith);
    } else {
        assert(digits.take(digits.len() as int) =~= digits);
        lemma_pow0(10);
    }
}

proof fn lemma_zero_digits(n: nat)
    ensures
        all_digits(crate::text::repeated('0', n)),
        nat_of(crate::text::repeated('0', n)) == 0,
{
    lemma_nat_of_zeros(crate::text::repeated('0', n));
}

/// `text` is read as `digits` times ten to the power of `exponent`, with this sign.
pub open spec fn is_read_as(
    text: Seq<char>,
    negative: bool,
    digits: Seq<char>,
    exponent: int,
) -> bool {
    read_decimal(text) matches Some(x) && x.negative == negative && (if exponent >= 0 {
        x.exponent == 0 && nat_of(x.digits) == nat_of(digits) * pow(10, exponent as nat)
    } else {
        x.exponent == exponent && nat_of(x.digits) == nat_of(digits)
    })
}

proof fn lemma_pointed_reads_back(negative: bool, digits: Seq<char>, exponent: int)
    requires
        all_digits(digits),
        digits.len() > 0,
    ensures
        is_read_as(sign_text(negative) + pointed(digits, exponent), negative, digits, exponent),
{
    if exponent >= 0 {
        lemma_pointed_whole(negative, digits, exponent as nat);
    } else if digits.len() + exponent > 0 {
        lemma_pointed_inside(negative, digits, exponent);
    } else {
        lemma_pointed_before(negative, digits, exponent);
    }
}

proof fn lemma_pointed_whole(negative: bool, digits: Seq<char>, exponent: nat)
    requires
        all_digits(digits),
        digits.len() > 0,
    ensures
        is_read_as(
            sign_text(negative) + pointed(digits, exponent as int),
            negative,
            digits,
            exponent as int,
        ),
{
    let zeros = crate::text::repeated('0', exponent);
    lemma_zero_digits(exponent);
    let whole = digits + zeros;
    assert forall|i: int| 0 <= i < whole.len() implies is_digit(#[trigger] whole[i]) by {
        if i < digits.len() {
            assert(whole[i] == digits[i]);
        }
    }
    law_point_form_is_read(negative, whole, Seq::empty());
    lemma_nat_of_concat(digits, zeros);
}

proof fn lemma_digit_parts(digits: Seq<char>, at: int)
    requires
        all_digits(digits),
        0 <= at <= digits.len(),
    ensures
        all_digits(digits.take(at)),
        all_digits(digits.skip(at)),
        digits.take(at) + digits.skip(at) == digits,
{
    assert forall|i: int| 0 <= i < at implies is_digit(#[trigger] digits.take(at)[i]) by {
        assert(digits.take(at)[i] == digits[i]);
    }
    assert forall|i: int| 0 <= i < digits.len() - at implies is_digit(
        #[trigger] digits.skip(at)[i],
    ) by {
        assert(digits.skip(at)[i] == digits[at + i]);
    }
    assert(digits.take(at) + digits.skip(at) =~= digits);
}

proof fn lemma_joined_texts(a: Seq<char>, b: Seq<char>, c: Seq<char>, d: Seq<char>)
    ensures
        a + (b + c + d) == a + b + c + d,
{
    assert(a + (b + c + d) =~= a + b + c + d);
}

#[verifier::rlimit(40)]
proof fn lemma_pointed_inside(negative: bool, digits: Seq<char>, exponent: int)
    requires
        all_digits(digits),
        exponent < 0 < digits.len() + exponent,
    ensures
        is_read_as(sign_text(negative) + pointed(digits, exponent), negative, digits, exponent),
{
    let at = digits.len() + exponent;
    lemma_digit_parts(digits, at);
    let whole = digits.take(at);
    let fraction = digits.skip(at);
    assert(whole.len() > 0 && fraction.len() == -exponent);
    law_point_form_is_read(negative, whole, fraction);
    assert(pointed(digits, exponent) == whole + "."@ + fraction);
    lemma_joined_texts(sign_text(negative), whole, "."@, fraction);
}

/// Zeros in front of digits make no difference.
proof fn lemma_zeros_before(n: nat, digits: Seq<char>)
    requires
        all_digits(digits),
    ensures
        all_digits(crate::text::repeated('0', n) + digits),
        nat_of(crate::text::repeated('0', n) + digits) == nat_of(digits),
{
    let zeros = crate::text::repeated('0', n);
    let all = zeros + digits;
    assert forall|i: int| 0 <= i < all.len() implies is_digit(#[trigger] all[i]) by {
        if i >= n {
            assert(all[i] == digits[i - n]);
        }
    }
    lemma_zero_digits(n);
    lemma_nat_of_concat(zeros, digits);
    let p = pow(10, digits.len());
    assert(0 * p == 0) by (nonlinear_arith);
}

#[verifier::rlimit(40)]
proof fn lemma_pointed_before(negative: bool, digits: Seq<char>, exponent: int)
    requires
        all_digits(digits),
        digits.len() > 0,
        exponent < 0,
        digits.len() + exponent <= 0,
    ensures
        is_read_as(sign_text(negative) + pointed(digits, exponent), negative, digits, exponent),
{
    reveal_strlit("0.");
    reveal_strlit("0");
    reveal_strlit(".");
    let n = (-exponent - digits.len()) as nat;
    let zeros = crate::text::repeated('0', n);
    let zero = crate::text::repeated('0', 1);
    let fraction = zeros + digits;
    assert(zero =~= "0"@);
    lemma_zero_digits(1);
    lemma_zeros_before(n, digits);
    lemma_zeros_before(1, fraction);
    law_point_form_is_read(negative, zero, fraction);
    assert("0."@ =~= zero + "."@);
    assert(pointed(digits, exponent) == "0."@ + zeros + digits);
    assert(zero + "."@ + zeros + digits =~= zero + "."@ + fraction);
    lemma_joined_texts(sign_text(negative), zero, "."@, fraction);
}

/// A number that is written out is read back as the same number: with its sign, and no greater
/// and no less.
#[verifier::rlimit(40)]
pub proof fn law_written_out_reads_back(d: DecimalView)
    requires
        all_digits(d.digits),
    ensures
        read_decimal(positional(d)) matches Some(x) && x.negative == d.negative && at_most(x, d)
            && at_most(d, x),
{
    reveal_strlit("0");
    lemma_significant(d.digits);
    let digits = significant(d.digits);
    lemma_end_zeros(digits);
    let end = zeros_at_end(digits);
    let kept = digits.take(digits.len() - end);
    let exponent = d.exponent + end;
    let p = pow(10, end);
    if kept.len() == 0 {
        assert(all_digits("0"@));
        law_point_form_is_read(d.negative, "0"@, Seq::empty());
        let x = read_decimal(positional(d))->0;
        lemma_nat_of_zeros("0"@);
        assert(nat_of(d.digits) == 0) by (nonlinear_arith)
            requires
                nat_of(d.digits) == 0 * p,
        ;
        let unit = common_unit(x, d);
        let a = pow(10, (d.exponent - unit) as nat);
        let b = pow(10, (x.exponent - unit) as nat);
        assert(0 * a == 0 && 0 * b == 0) by (nonlinear_arith);
        assert(common_unit(d, x) == unit);
    } else {
        lemma_pointed_reads_back(d.negative, kept, exponent);
        let x = read_decimal(positional(d))->0;
        let unit = common_unit(x, d);
        assert(common_unit(d, x) == unit);
        let n = nat_of(kept) as int;
        let q = pow(10, (d.exponent - unit) as nat);
        let r = pow(10, (x.exponent - unit) as nat);
        lemma_pow_adds(10, end, (d.exponent - unit) as nat);
        assert((n * p) * q == n * (p * q)) by (nonlinear_arith);
        if exponent >= 0 {
            let e = pow(10, exponent as nat);
            lemma_pow_adds(10, exponent as nat, (x.exponent - unit) as nat);
            assert((n * e) * r == n * (e * r)) by (nonlinear_arith);
            assert(exponent as nat + (x.exponent - unit) as nat == end + (d.exponent
                - unit) as nat);
        } else {
            assert((x.exponent - unit) as nat == end + (d.exponent - unit) as nat);
        }
    }
}

/// A plus sign makes no difference to a whole number, and a numeral in front of which zeros are
/// put writes the same number; what is no numeral, or none that fits, is refused.
pub proof fn law_whole_numbers(s: Seq<char>, n: u64)
    ensures
        s.len() > 0 && s[0] != '+' ==> read_u64(seq!['+'] + s) == read_u64(s),
        read_u64(s) == Some(n) && s[0] != '+' ==> read_u64(seq!['0'] + s) == Some(n),
        read_u64(s) == Some(n) ==> s.len() > 0 && is_digit(s.last()),
        read_u64(Seq::empty()) is None,
        s.len() > 0 && !is_digit(s.last()) ==> read_u64(s) is None,
{
    let plus = seq!['+'] + s;
    assert(plus.drop_first() =~= s);
    let zero = seq!['0'] + s;
    if read_u64(s) == Some(n) {
        if s[0] == '+' {
            let body = s.drop_first();
            assert(is_digit(body[body.len() - 1]));
            assert(body[body.len() - 1] == s.last());
        } else {
            assert(is_digit(s[s.len() - 1]));
            assert forall|i: int| 0 <= i < zero.len() implies is_digit(#[trigger] zero[i]) by {
                if i > 0 {
                    assert(zero[i] == s[i - 1]);
                }
            }
            lemma_nat_of_concat(seq!['0'], s);
            lemma_nat_of_zeros(seq!['0']);
            let p = pow(10, s.len());
            assert(0 * p == 0) by (nonlinear_arith);
        }
    }
}

/// The words for numbers that are not finite, in any case: infinity keeps its sign, NaN has none.
pub proof fn law_words_that_are_no_numbers(s: Seq<char>)
    ensures
        read_word(s) matches Some(w) ==> w == "inf"@ || w == "-inf"@ || w == "NaN"@,
        read_word(s) == Some("-inf"@) ==> s.len() > 0 && s[0] == '-',
        read_word(s) == Some("inf"@) ==> s.len() > 0 && s[0] != '-',
        s.len() > 0 && s[0] != '-' && s[0] != '+' ==> {
            &&& read_word(seq!['+'] + s) == read_word(s)
            &&& read_word(s) == Some("inf"@) <==> read_word(seq!['-'] + s) == Some("-inf"@)
            &&& read_word(s) == Some("NaN"@) <==> read_word(seq!['-'] + s) == Some("NaN"@)
            &&& seq!["inf"@, "infinity"@].contains(crate::text::ascii_lower(s)) ==> read_word(s)
                == Some("inf"@)
            &&& crate::text::ascii_lower(s) == "nan"@ ==> read_word(s) == Some("NaN"@)
        },
{
    reveal_strlit("inf");
    reveal_strlit("-inf");
    reveal_strlit("NaN");
    reveal_strlit("nan");
    reveal_strlit("infinity");
    assert("inf"@.len() == 3 && "-inf"@.len() == 4 && "NaN"@.len() == 3);
    assert("inf"@[0] == 'i' && "NaN"@[0] == 'N' && "nan"@[0] == 'n');
    assert("infinity"@.len() == 8 && "nan"@.len() == 3);
    let plus = seq!['+'] + s;
    let minus = seq!['-'] + s;
    assert(s.skip(0) =~= s);
    assert(plus.skip(1) =~= s);
    assert(minus.skip(1) =~= s);
    if s.len() == 0 {
        assert(crate::text::ascii_lower(s.skip(0)).len() == 0);
    }
    let list = seq!["inf"@, "infinity"@];
    assert(list[0] == "inf"@ && list[1] == "infinity"@);
}

} // verus!
