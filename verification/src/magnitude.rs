//! What double-precision numbers are worth, and how their texts read back.

use crate::decimal::fixed;
use crate::double::{power, Double};
use crate::reading::{
    after, all_digits, before, is_digit, lacks, law_a_number_reads_back,
    law_a_quotient_is_rounded_to_the_nearest, law_an_integer_reads_back, lemma_both_lack,
    lemma_dec_lacks, lemma_digits_lack, lemma_no_mark, lemma_split_at, lemma_ten_is_a_power,
    read, reads_as,
};
use crate::shortest::{decimal_places, in_units, layout, lemma_shortest_unique, mantissa};
use crate::text::{dec, int_dec, repeated, ten};
use vstd::arithmetic::power::{lemma_pow_adds, lemma_pow_distributes, lemma_pow_positive, pow};
use vstd::arithmetic::power2::{lemma_pow2, lemma_pow2_adds, lemma_pow2_pos, pow2};
use vstd::prelude::*;

verus! {

impl Double {
    /// Neither infinite nor not a number.
    pub open spec fn is_finite(self) -> bool {
        !self.is_nan() && !self.is_infinite()
    }

    /// The magnitude of a finite number, counted in the smallest positive one.
    pub open spec fn magnitude(self) -> nat {
        self.significand() * pow2((self.exponent() + 1074) as nat)
    }
}

/// The two ways to write a power of two.
proof fn lemma_power_is_pow2(n: nat)
    ensures
        power(2, n) == pow2(n),
    decreases n,
{
    reveal(pow);
    lemma_pow2(n);
    if n > 0 {
        lemma_pow2((n - 1) as nat);
        lemma_power_is_pow2((n - 1) as nat);
    }
}

/// Which patterns stand for what: behind the sign bit, a pattern below that of
/// infinity is a finite number and one above it is not a number.
pub proof fn law_patterns_of_doubles(x: Double)
    ensures
        x.negative() == (x.bits >= 0x8000_0000_0000_0000),
        x.is_finite() == (x.bits % 0x8000_0000_0000_0000 < 0x7ff0_0000_0000_0000),
        x.is_infinite() == (x.bits % 0x8000_0000_0000_0000 == 0x7ff0_0000_0000_0000),
        x.is_nan() == (x.bits % 0x8000_0000_0000_0000 > 0x7ff0_0000_0000_0000),
{
}

/// The pattern of zero is worth nothing, and from one pattern to the next a
/// finite number grows by the distance that its exponent gives: by the smallest
/// positive number up to the second binade, and by twice as much in each one
/// after that.
pub proof fn law_doubles_grow_with_their_patterns(x: Double, next: Double)
    requires
        x.is_finite(),
        next.is_finite(),
        next.bits == x.bits + 1,
        next.negative() == x.negative(),
    ensures
        x.bits % 0x8000_0000_0000_0000 == 0 ==> x.magnitude() == 0,
        x.bits % 0x8000_0000_0000_0000 < 0x10_0000_0000_0000 ==> next.magnitude() == x.magnitude()
            + 1,
        x.bits % 0x8000_0000_0000_0000 >= 0x10_0000_0000_0000 ==> next.magnitude() == x.magnitude()
            + pow2(((x.bits % 0x8000_0000_0000_0000) / 0x10_0000_0000_0000 - 1) as nat),
{
    let field = x.exponent_field();
    let fraction = x.fraction_field();
    let e = (x.exponent() + 1074) as nat;
    lemma_pow2(0);
    reveal(pow);
    assert(field == (x.bits % 0x8000_0000_0000_0000) / 0x10_0000_0000_0000);
    if fraction == 0xf_ffff_ffff_ffff {
        assert(next.exponent_field() == field + 1);
        assert(next.fraction_field() == 0);
        if field > 0 {
            let unit = pow2(e);
            lemma_pow2_adds(1, e);
            lemma_pow2(1);
            assert(pow(2, 0) == 1);
            assert(pow2(e + 1) == 2 * unit) by (nonlinear_arith)
                requires
                    pow2(e + 1) == pow2(1) * unit,
                    pow2(1) == 2,
            ;
            assert(0x10_0000_0000_0000 * (2 * unit) == 0x1f_ffff_ffff_ffff * unit + unit)
                by (nonlinear_arith);
        } else {
            assert(0x10_0000_0000_0000 * pow2(0) == 0xf_ffff_ffff_ffff * pow2(0) + 1);
        }
    } else {
        assert(next.exponent_field() == field);
        assert(next.fraction_field() == fraction + 1);
        assert((x.significand() + 1) * pow2(e) == x.significand() * pow2(e) + pow2(e))
            by (nonlinear_arith);
    }
}

/// The sign changes the text by a minus sign alone: what follows it is what is
/// shown of the same number without it.
pub proof fn law_the_sign_is_a_minus_sign(x: Double, negated: Double, places: nat)
    requires
        !x.negative(),
        negated.bits == x.bits + 0x8000_0000_0000_0000,
    ensures
        x.is_nan() ==> x.fixed_text(places) == "NaN"@ && negated.fixed_text(places) == "NaN"@,
        x.is_infinite() ==> x.fixed_text(places) == "inf"@,
        !x.is_nan() ==> negated.fixed_text(places) == seq!['-'] + x.fixed_text(places),
        x.is_nan() ==> x.debug_text() == "NaN"@ && negated.debug_text() == "NaN"@,
        x.is_infinite() ==> x.debug_text() == "inf"@,
        x.is_infinite() ==> negated.debug_text() == "-inf"@,
        x.bits == 0 ==> x.debug_text() == "0.0"@ && negated.debug_text() == "-0.0"@,
{
    reveal_strlit("-");
    reveal_strlit("inf");
    reveal_strlit("-inf");
    reveal_strlit("0.0");
    reveal_strlit("-0.0");
    assert("-"@ =~= seq!['-']);
    assert(negated.exponent_field() == x.exponent_field());
    assert(negated.fraction_field() == x.fraction_field());
    assert(negated.magnitude_fixed(places) == x.magnitude_fixed(places));
    assert(x.fixed_text(places) =~= if x.is_nan() {
        "NaN"@
    } else if x.is_infinite() {
        "inf"@
    } else {
        x.magnitude_fixed(places)
    });
    assert(seq!['-'] + "inf"@ =~= "-inf"@);
    assert(seq!['-'] + "0.0"@ =~= "-0.0"@);
    assert(Seq::empty() + "inf"@ =~= "inf"@);
    assert(Seq::empty() + "0.0"@ =~= "0.0"@);
}

/// A finite number is shown as the nearest one with as many places as asked for:
/// read without its point it is a whole number of units of the last place, no
/// further from the number than half a unit, and an even number of units where
/// it is that far.
pub proof fn law_a_double_is_rounded_to_the_nearest(x: Double, places: nat)
    requires
        x.is_finite(),
        !x.negative(),
    ensures
        ({
            let text = x.fixed_text(places);
            let whole = before(text, '.');
            let part = after(text, '.');
            let units = read(whole) * pow(10, places) + read(part);
            let one = pow2(1074);
            let error = 2 * (units * one - x.magnitude() * pow(10, places));
            &&& text == whole + seq!['.'] + part
            &&& reads_as(whole, read(whole))
            &&& all_digits(part)
            &&& part.len() == places
            &&& -one <= error <= one
            &&& error == one || error == -one ==> units % 2 == 0
        }),
{
    let e = x.exponent();
    let (num, den, factor) = if e >= 0 {
        (x.significand() * power(2, e as nat), 1nat, pow2(1074))
    } else {
        (x.significand(), power(2, (-e) as nat), pow2((e + 1074) as nat))
    };
    let text = x.fixed_text(places);
    assert(text =~= fixed(num, den, places));
    if e >= 0 {
        lemma_power_is_pow2(e as nat);
        lemma_pow2_adds(e as nat, 1074);
        assert(x.significand() * pow2(e as nat) * pow2(1074) == x.significand() * (pow2(e as nat)
            * pow2(1074))) by (nonlinear_arith);
    } else {
        lemma_power_is_pow2((-e) as nat);
        lemma_pow2_adds((-e) as nat, (e + 1074) as nat);
        lemma_pow2_pos((-e) as nat);
        lemma_pow2_pos((e + 1074) as nat);
    }
    assert(pow2(1074) == den * factor);
    assert(x.magnitude() == num * factor);
    law_a_quotient_is_rounded_to_the_nearest(num, den, places);
    lemma_pow2_pos(1074);
    let units = read(before(text, '.')) * pow(10, places) + read(after(text, '.'));
    lemma_scaled_error(units, num as int, den as int, factor as int, pow(10, places));
}

/// An error grows with the scale that it is measured in.
proof fn lemma_scaled_error(units: int, num: int, den: int, factor: int, unit: int)
    requires
        factor > 0,
        -den <= 2 * (units * den - num * unit) <= den,
    ensures
        -(den * factor) <= 2 * (units * (den * factor) - num * factor * unit) <= den * factor,
        2 * (units * (den * factor) - num * factor * unit) == den * factor ==> 2 * (units * den
            - num * unit) == den,
        2 * (units * (den * factor) - num * factor * unit) == -(den * factor) ==> 2 * (units * den
            - num * unit) == -den,
{
    let error = 2 * (units * den - num * unit);
    assert(2 * (units * (den * factor) - num * factor * unit) == error * factor)
        by (nonlinear_arith)
        requires
            error == 2 * (units * den - num * unit),
    ;
    assert(-(den * factor) <= error * factor <= den * factor) by (nonlinear_arith)
        requires
            -den <= error <= den,
            factor > 0,
    ;
    assert(error * factor == den * factor ==> error == den) by (nonlinear_arith)
        requires
            factor > 0,
    ;
    assert(error * factor == -(den * factor) ==> error == -den) by (nonlinear_arith)
        requires
            factor > 0,
    ;
}

/// An integer, after a minus sign where it has one.
pub open spec fn read_int(text: Seq<char>) -> int {
    if text.len() > 0 && text[0] == '-' {
        -read(text.drop_first())
    } else {
        read(text)
    }
}

/// The digits of a number without its point and its power of ten.
pub open spec fn digits_of(text: Seq<char>) -> Seq<char> {
    before(before(text, 'e'), '.') + after(before(text, 'e'), '.')
}

/// The power of ten that the digits of a number are multiplied by.
pub open spec fn scale_of(text: Seq<char>) -> int {
    read_int(after(text, 'e')) - after(before(text, 'e'), '.').len()
}

/// Digits with their point read back as the number that they make, in its place:
/// what is read may have more zeros at its end, and its power of ten is then as
/// much smaller. Between a ten-thousandth and ten to the power of sixteen the
/// number is written out, with at least one digit on either side of the point;
/// beyond, one digit stands before the point, and no point where it is the only
/// one.
pub proof fn law_a_layout_reads_back(m: nat, point: int)
    ensures
        ({
            let text = layout(dec(m), point);
            let places = dec(m).len();
            &&& all_digits(digits_of(text))
            &&& scale_of(text) <= point - places
            &&& read(digits_of(text)) == m * pow(10, (point - places - scale_of(text)) as nat)
            &&& lacks(text, 'e') == (-3 <= point <= 16)
            &&& lacks(text, 'e') ==> before(text, '.').len() == if point < 1 { 1 } else { point }
            &&& lacks(text, 'e') ==> after(text, '.').len() == if point < places {
                places - point
            } else {
                1
            }
            &&& !lacks(text, 'e') ==> before(before(text, 'e'), '.').len() == 1
            &&& !lacks(text, 'e') ==> (places == 1) == lacks(before(text, 'e'), '.')
        }),
{
    let digits = dec(m);
    let n = digits.len() as int;
    let text = layout(digits, point);
    law_a_number_reads_back(m);
    lemma_dec_lacks(m, 'e');
    lemma_dec_lacks(m, '.');
    reveal_strlit("e");
    reveal_strlit(".");
    reveal_strlit("0.");
    reveal_strlit(".0");
    reveal(pow);
    assert("e"@ =~= seq!['e']);
    assert("."@ =~= seq!['.']);
    if point < -3 || point > 16 {
        let exponent = int_dec(point - 1);
        law_an_integer_reads_back(point - 1);
        lemma_mantissa(m);
        assert(text =~= mantissa(digits) + seq!['e'] + exponent);
        lemma_split_at(mantissa(digits), 'e', exponent);
        assert(text[mantissa(digits).len() as int] == 'e');
        assert(read_int(exponent) == point - 1) by {
            if point - 1 >= 0 {
                assert(is_digit(exponent[0]));
            }
        }
        assert(m * pow(10, 0) == m) by (nonlinear_arith)
            requires
                pow(10, 0) == 1,
        ;
    } else {
        let (whole, part) = if point <= 0 {
            (seq!['0'], repeated('0', (-point) as nat) + digits)
        } else if point < n {
            (digits.subrange(0, point), digits.subrange(point, n))
        } else {
            (digits + repeated('0', (point - n) as nat), seq!['0'])
        };
        assert(text =~= whole + seq!['.'] + part);
        assert(all_digits(whole) && all_digits(part)) by {
            assert forall|i: int| 0 <= i < whole.len() implies is_digit(#[trigger] whole[i]) by {
                if point > 0 && i < n {
                    assert(whole[i] == digits[i]);
                }
            }
            assert forall|i: int| 0 <= i < part.len() implies is_digit(#[trigger] part[i]) by {
                if point <= 0 && i >= -point {
                    assert(part[i] == digits[i + point]);
                } else if 0 < point < n {
                    assert(part[i] == digits[point + i]);
                }
            }
        }
        lemma_digits_lack(whole, '.');
        lemma_digits_lack(whole, 'e');
        lemma_digits_lack(part, 'e');
        lemma_both_lack(whole, seq!['.'], 'e');
        lemma_both_lack(whole + seq!['.'], part, 'e');
        lemma_no_mark(text, 'e');
        lemma_split_at(whole, '.', part);
        assert(text[whole.len() as int] == '.');
        assert(read_int(Seq::empty()) == 0);
        let all = whole + part;
        assert(all_digits(all)) by {
            assert forall|i: int| 0 <= i < all.len() implies is_digit(#[trigger] all[i]) by {
                if i < whole.len() {
                    assert(all[i] == whole[i]);
                } else {
                    assert(all[i] == part[i - whole.len()]);
                }
            }
        }
        if point <= 0 {
            assert(all =~= repeated('0', (1 - point) as nat) + digits);
            lemma_zeros_before((1 - point) as nat, digits);
        } else if point < n {
            assert(all =~= digits);
        } else {
            assert(all =~= digits + repeated('0', (point - n + 1) as nat));
            lemma_zeros_behind(digits, (point - n + 1) as nat);
        }
        assert(m * pow(10, 0) == m) by (nonlinear_arith)
            requires
                pow(10, 0) == 1,
        ;
    }
}

/// What stands in front of the power of ten.
proof fn lemma_mantissa(m: nat)
    ensures
        lacks(mantissa(dec(m)), 'e'),
        before(mantissa(dec(m)), '.') + after(mantissa(dec(m)), '.') == dec(m),
        after(mantissa(dec(m)), '.').len() == dec(m).len() - 1,
        before(mantissa(dec(m)), '.').len() == 1,
        (dec(m).len() == 1) == lacks(mantissa(dec(m)), '.'),
{
    let digits = dec(m);
    let n = digits.len() as int;
    law_a_number_reads_back(m);
    reveal_strlit(".");
    assert("."@ =~= seq!['.']);
    if n == 1 {
        lemma_dec_lacks(m, 'e');
        lemma_dec_lacks(m, '.');
        lemma_no_mark(digits, '.');
        assert(digits + Seq::empty() =~= digits);
    } else {
        let first = digits.subrange(0, 1);
        let others = digits.subrange(1, n);
        assert(all_digits(first)) by {
            assert(first[0] == digits[0]);
        }
        assert(all_digits(others)) by {
            assert forall|i: int| 0 <= i < others.len() implies is_digit(#[trigger] others[i]) by {
                assert(others[i] == digits[i + 1]);
            }
        }
        lemma_digits_lack(first, '.');
        lemma_digits_lack(first, 'e');
        lemma_digits_lack(others, 'e');
        lemma_both_lack(first, "."@, 'e');
        lemma_both_lack(first + "."@, others, 'e');
        lemma_split_at(first, '.', others);
        assert(first + others =~= digits);
        assert(mantissa(digits)[1] == '.');
    }
}

/// Zeros in front change nothing.
proof fn lemma_zeros_before(zeros: nat, digits: Seq<char>)
    ensures
        read(repeated('0', zeros) + digits) == read(digits),
    decreases zeros + digits.len(),
{
    let text = repeated('0', zeros) + digits;
    if digits.len() > 0 {
        lemma_zeros_before(zeros, digits.drop_last());
        assert(text.drop_last() =~= repeated('0', zeros) + digits.drop_last());
        assert(text.last() == digits.last());
    } else if zeros > 0 {
        lemma_zeros_before((zeros - 1) as nat, digits);
        assert(text.drop_last() =~= repeated('0', (zeros - 1) as nat) + digits);
        assert(text.last() == '0');
    } else {
        assert(text =~= digits);
    }
}

/// A zero behind multiplies by ten.
proof fn lemma_zeros_behind(digits: Seq<char>, zeros: nat)
    ensures
        read(digits + repeated('0', zeros)) == read(digits) * pow(10, zeros),
    decreases zeros,
{
    let text = digits + repeated('0', zeros);
    reveal(pow);
    if zeros > 0 {
        lemma_zeros_behind(digits, (zeros - 1) as nat);
        assert(text.drop_last() =~= digits + repeated('0', (zeros - 1) as nat));
        assert(text.last() == '0');
        let p = pow(10, (zeros - 1) as nat);
        assert(10 * (read(digits) * p) == read(digits) * (10 * p)) by (nonlinear_arith);
    } else {
        assert(text =~= digits);
        assert(read(digits) * 1 == read(digits)) by (nonlinear_arith);
    }
}

impl Double {
    /// The distance to the next larger magnitude, counted in the smallest
    /// positive number.
    pub open spec fn gap(self) -> nat {
        pow2((self.exponent() + 1074) as nat)
    }

    /// Whether `m` times ten to the power of `scale` is no further from this
    /// number than half the way to the next larger one, and no further than half
    /// the way to the next smaller one, which below a power of two is half as
    /// long. A number that lies just halfway goes to an even significand.
    pub open spec fn takes(self, m: nat, scale: int) -> bool {
        let up = pow(10, if scale >= 0 { scale as nat } else { 0 });
        let down = pow(10, if scale < 0 { (-scale) as nat } else { 0 });
        let shown = 4 * (m * up * pow2(1074));
        let least = (4 * self.magnitude() - (if self.fraction_field() == 0 { 1int } else { 2 })
            * self.gap()) * down;
        let most = (4 * self.magnitude() + 2 * self.gap()) * down;
        if self.significand() % 2 == 0 {
            least <= shown <= most
        } else {
            least < shown < most
        }
    }
}

impl Double {
    /// How far `m` times ten to the power of `scale` is from this number, in a
    /// unit that depends on the scale alone.
    pub open spec fn away(self, m: nat, scale: int) -> int {
        let up = pow(10, if scale >= 0 { scale as nat } else { 0 });
        let down = pow(10, if scale < 0 { (-scale) as nat } else { 0 });
        let shown = m * up * pow2(1074);
        let exact = self.magnitude() * down;
        if shown < exact { exact - shown } else { shown - exact }
    }
}

/// Units of the last decimal place, measured in the smallest positive number.
proof fn lemma_units(n: nat, e: int)
    requires
        e >= -1076,
    ensures
        in_units(n, e) * pow2(1076) == n * pow2((e + 1076) as nat) * pow(10, decimal_places(e)),
{
    reveal(pow);
    if e < 0 {
        let k = (-e) as nat;
        let five = power(5, k) as int;
        let two = pow2(k) as int;
        let rest = pow2((e + 1076) as nat) as int;
        lemma_power_is_pow(5, k);
        lemma_pow2(k);
        lemma_pow_distributes(5, 2, k);
        lemma_pow2_adds(k, (e + 1076) as nat);
        assert(n * five * (two * rest) == n * rest * (five * two)) by (nonlinear_arith);
    } else {
        let two = pow2(e as nat) as int;
        let rest = pow2(1076) as int;
        lemma_power_is_pow2(e as nat);
        lemma_pow2_adds(e as nat, 1076);
        assert(n * two * rest == n * (two * rest) * 1) by (nonlinear_arith);
    }
}

/// The two ways to write a power.
proof fn lemma_power_is_pow(base: nat, n: nat)
    ensures
        power(base, n) == pow(base as int, n),
    decreases n,
{
    reveal(pow);
    if n > 0 {
        lemma_power_is_pow(base, (n - 1) as nat);
    }
}

/// A comparison is the same at a larger scale.
proof fn lemma_same_at_scale(a: int, b: int, factor: int)
    requires
        factor > 0,
    ensures
        (a * factor < b * factor) == (a < b),
        (a * factor == b * factor) == (a == b),
{
    if a < b {
        assert(a * factor < b * factor) by (nonlinear_arith)
            requires
                a < b,
                factor > 0,
        ;
    } else if a > b {
        assert(a * factor > b * factor) by (nonlinear_arith)
            requires
                a > b,
                factor > 0,
        ;
    }
}

/// The two powers of ten that a scale stands for.
spec fn up(scale: int) -> int {
    pow(10, if scale >= 0 { scale as nat } else { 0 })
}

/// The other one.
spec fn down(scale: int) -> int {
    pow(10, if scale < 0 { (-scale) as nat } else { 0 })
}

/// At `t` zeros of so many places, the powers of ten of the scale differ from
/// those of the zeros and the places by one factor.
proof fn lemma_common_factor(t: nat, places: nat)
    ensures
        common_factor(t, places) > 0,
        up(t - places) * common_factor(t, places) == pow(10, t),
        down(t - places) * common_factor(t, places) == pow(10, places),
{
    let factor = common_factor(t, places);
    reveal(pow);
    assert(1 * factor == factor);
    if t >= places {
        lemma_pow_positive(10, places);
        lemma_pow_adds(10, (t - places) as nat, places);
    } else {
        lemma_pow_positive(10, t);
        lemma_pow_adds(10, (places - t) as nat, t);
    }
}

/// That factor.
spec fn common_factor(t: nat, places: nat) -> int {
    if t >= places { pow(10, places) } else { pow(10, t) }
}

/// What a count of units is worth, against a bound on the significand.
proof fn lemma_bound(x: Double, quarters: nat, m: nat, t: nat)
    requires
        x.is_finite(),
    ensures
        ({
            let scale = t - decimal_places(x.quarter());
            let bound = in_units(quarters, x.quarter());
            let shown = 4 * (m * up(scale) * pow2(1074));
            let limit = quarters * x.gap() * down(scale);
            &&& (m * ten(t) < bound) == (shown < limit)
            &&& (m * ten(t) == bound) == (shown == limit)
        }),
{
    let places = decimal_places(x.quarter());
    let scale = t - places;
    let factor = common_factor(t, places);
    lemma_common_factor(t, places);
    let c = m * ten(t);
    let bound = in_units(quarters, x.quarter());
    let gap = x.gap() as int;
    let one = pow2(1074) as int;
    lemma_ten_is_a_power(t);
    lemma_units(quarters, x.quarter());
    lemma_pow2_pos(1076);
    lemma_pow2_adds(2, 1074);
    lemma_pow2(2);
    reveal(pow);
    assert(pow(2, 0) == 1);
    assert(pow(2, 1) == 2);
    assert(pow(2, 2) == 4);
    let shown = 4 * (m * up(scale) * one);
    let limit = quarters * gap * down(scale);
    let (u, d) = (up(scale), down(scale));
    assert(c * (4 * one) == 4 * (m * u * one) * factor) by (nonlinear_arith)
        requires
            c == m * (u * factor),
    ;
    assert(quarters * gap * (d * factor) == quarters * gap * d * factor) by (nonlinear_arith);
    lemma_same_at_scale(c as int, bound as int, pow2(1076) as int);
    lemma_same_at_scale(shown, limit, factor);
}

/// What rounds to a number is what it takes.
proof fn lemma_admits_is_takes(x: Double, m: nat, t: nat)
    requires
        x.is_finite(),
        x.significand() > 0,
    ensures
        x.admits(m, t) == x.takes(m, t - decimal_places(x.quarter())),
{
    let s = x.significand();
    let below: int = if x.fraction_field() == 0 { 1 } else { 2 };
    let gap = x.gap() as int;
    lemma_bound(x, (4 * s - below) as nat, m, t);
    lemma_bound(x, 4 * s + 2, m, t);
    assert((4 * s - below) * gap == 4 * (s * gap) - below * gap) by (nonlinear_arith);
    assert((4 * s + 2) * gap == 4 * (s * gap) + 2 * gap) by (nonlinear_arith);
}

/// Zeros at the end can be given to the power of ten.
proof fn lemma_takes_with_zeros(x: Double, m: nat, scale: int, zeros: nat)
    requires
        m * pow(10, zeros) >= 0,
    ensures
        x.takes((m * pow(10, zeros)) as nat, scale - zeros) == x.takes(m, scale),
{
    let p = pow(10, zeros);
    let least = 4 * x.magnitude() - (if x.fraction_field() == 0 { 1int } else { 2 }) * x.gap();
    let most = 4 * x.magnitude() + 2 * x.gap();
    let one = pow2(1074) as int;
    let (u, d) = (up(scale), down(scale));
    let (v, e) = (up(scale - zeros), down(scale - zeros));
    lemma_pow_positive(10, zeros);
    reveal(pow);
    let factor = if scale >= zeros {
        lemma_pow_adds(10, (scale - zeros) as nat, zeros);
        1
    } else if scale >= 0 {
        lemma_pow_adds(10, (zeros - scale) as nat, scale as nat);
        lemma_pow_positive(10, (zeros - scale) as nat);
        pow(10, (zeros - scale) as nat)
    } else {
        lemma_pow_adds(10, (-scale) as nat, zeros);
        p
    };
    assert(p * v == u * factor && e == d * factor) by (nonlinear_arith)
        requires
            ({
                ||| factor == 1 && u == v * p && e == 1 && d == 1
                ||| v == 1 && d == 1 && e == factor && p == factor * u
                ||| factor == p && v == 1 && u == 1 && e == d * p
            }),
    ;
    assert(4 * (m * p * v * one) == 4 * (m * u * one) * factor) by (nonlinear_arith)
        requires
            p * v == u * factor,
    ;
    assert(least * e == least * d * factor && most * e == most * d * factor) by (nonlinear_arith)
        requires
            e == d * factor,
    ;
    lemma_same_at_scale(least * d, 4 * (m * u * one), factor);
    lemma_same_at_scale(4 * (m * u * one), most * d, factor);
}

/// Distances compare alike in either unit.
proof fn lemma_distance_is_away(x: Double, m: nat, m2: nat, t: nat)
    requires
        x.is_finite(),
    ensures
        ({
            let scale = t - decimal_places(x.quarter());
            &&& (x.distance(m, t) < x.distance(m2, t)) == (x.away(m, scale) < x.away(m2, scale))
            &&& (x.distance(m, t) == x.distance(m2, t)) == (x.away(m, scale) == x.away(m2, scale))
        }),
{
    let places = decimal_places(x.quarter());
    let scale = t - places;
    lemma_distance(x, m, t);
    lemma_distance(x, m2, t);
    lemma_common_factor(t, places);
    lemma_pow2_pos(1076);
    lemma_same_at_scale(
        x.distance(m, t) as int,
        x.distance(m2, t) as int,
        pow2(1076) as int,
    );
    lemma_same_at_scale(x.away(m, scale), x.away(m2, scale), 4 * common_factor(t, places));
}

/// A distance in either unit.
proof fn lemma_distance(x: Double, m: nat, t: nat)
    requires
        x.is_finite(),
    ensures
        x.distance(m, t) * pow2(1076) == x.away(m, t - decimal_places(x.quarter())) * (4
            * common_factor(t, decimal_places(x.quarter()))),
{
    let places = decimal_places(x.quarter());
    let scale = t - places;
    let factor = common_factor(t, places);
    let c = (m * ten(t)) as int;
    let centre = x.centre() as int;
    let s = x.significand() as int;
    let gap = x.gap() as int;
    let one = pow2(1074) as int;
    let big = pow2(1076) as int;
    let (u, d) = (up(scale), down(scale));
    lemma_common_factor(t, places);
    lemma_bound(x, 4 * x.significand(), m, t);
    lemma_ten_is_a_power(t);
    lemma_units(4 * x.significand(), x.quarter());
    lemma_pow2_adds(2, 1074);
    lemma_pow2(2);
    reveal(pow);
    assert(pow(2, 0) == 1);
    assert(pow(2, 1) == 2);
    assert(pow(2, 2) == 4);
    assert(c * big == m * u * one * (4 * factor)) by (nonlinear_arith)
        requires
            c == m * (u * factor),
            big == 4 * one,
    ;
    assert(centre * big == s * gap * d * (4 * factor)) by (nonlinear_arith)
        requires
            centre * big == 4 * s * gap * (d * factor),
    ;
    assert(4 * (m * u * one) < 4 * s * gap * d <==> m * u * one < s * gap * d) by (nonlinear_arith);
    if c <= centre {
        assert((centre - c) * big == centre * big - c * big) by (nonlinear_arith);
        assert((s * gap * d - m * u * one) * (4 * factor)
            == s * gap * d * (4 * factor) - m * u * one
            * (4 * factor)) by (nonlinear_arith);
        assert(4 * (m * u * one) == 4 * s * gap * d <==> m * u * one == s * gap * d)
            by (nonlinear_arith);
    } else {
        assert((c - centre) * big == c * big - centre * big) by (nonlinear_arith);
        assert((m * u * one - s * gap * d) * (4 * factor)
            == m * u * one * (4 * factor) - s * gap * d
            * (4 * factor)) by (nonlinear_arith);
    }
}

/// A positive number is shown by a decimal that reads back as it. No decimal with
/// fewer digits does, and of those with as many none is nearer; of two that are
/// equally near it is the larger.
pub proof fn law_the_shortest_decimal_reads_back(x: Double)
    requires
        x.is_finite(),
        !x.negative(),
        x.bits != 0,
        x.is_shortest(x.shortest().0, x.shortest().1),
    ensures
        ({
            let text = x.debug_text();
            let m = x.shortest().0;
            let scale = x.shortest().1 - decimal_places(x.quarter());
            let zeros = (scale - scale_of(text)) as nat;
            &&& all_digits(digits_of(text))
            &&& scale_of(text) <= scale
            &&& read(digits_of(text)) == m * pow(10, zeros)
            &&& x.takes(read(digits_of(text)) as nat, scale_of(text))
            &&& forall|m2: nat, scale2: int| scale2 > scale ==> !#[trigger] x.takes(m2, scale2)
            &&& forall|m2: nat| #[trigger]
                x.takes(m2, scale) ==> x.away(m, scale) < x.away(m2, scale) || (x.away(m, scale)
                    == x.away(m2, scale) && m2 <= m)
        }),
{
    let text = x.debug_text();
    let (m, t) = x.shortest();
    let places = decimal_places(x.quarter());
    let scale = t - places;
    let point = dec(m).len() + t - places;
    assert(x.significand() > 0);
    assert(text =~= layout(dec(m), point));
    law_a_layout_reads_back(m, point);
    let zeros = (scale - scale_of(text)) as nat;
    lemma_admits_is_takes(x, m, t);
    lemma_pow_positive(10, zeros);
    assert(m * pow(10, zeros) >= 0) by (nonlinear_arith)
        requires
            pow(10, zeros) > 0,
    ;
    lemma_takes_with_zeros(x, m, scale, zeros);
    assert forall|m2: nat, scale2: int| scale2 > scale implies !#[trigger] x.takes(m2, scale2) by {
        lemma_admits_is_takes(x, m2, (scale2 + places) as nat);
        assert(!x.admits(m2, (scale2 + places) as nat));
    }
    assert forall|m2: nat| #[trigger] x.takes(m2, scale) implies x.away(m, scale) < x.away(m2, scale)
        || (x.away(m, scale) == x.away(m2, scale) && m2 <= m) by {
        lemma_admits_is_takes(x, m2, t);
        lemma_distance_is_away(x, m, m2, t);
        assert(x.admits(m2, t));
    }
}

/// A negative number is shown by a minus sign and the decimal of its magnitude.
pub proof fn law_a_negative_decimal_has_a_minus_sign(x: Double, negated: Double)
    requires
        x.is_finite(),
        !x.negative(),
        x.bits != 0,
        negated.bits == x.bits + 0x8000_0000_0000_0000,
        x.is_shortest(x.shortest().0, x.shortest().1),
    ensures
        negated.debug_text() == seq!['-'] + x.debug_text(),
{
    let (m, t) = x.shortest();
    reveal_strlit("-");
    assert("-"@ =~= seq!['-']);
    assert(negated.exponent_field() == x.exponent_field());
    assert(negated.fraction_field() == x.fraction_field());
    assert forall|m2: nat, t2: nat| #[trigger] negated.admits(m2, t2) == x.admits(m2, t2) by {}
    assert forall|m2: nat, t2: nat| #[trigger] negated.distance(m2, t2) == x.distance(m2, t2) by {}
    assert(negated.is_shortest(m, t));
    lemma_shortest_unique(negated, m, t);
    assert(negated.debug_text() =~= seq!['-'] + x.debug_text());
}

} // verus!
