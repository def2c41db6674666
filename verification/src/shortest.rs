//! The shortest decimal that reads back as a given double-precision number.

use crate::digits::{
    decrement, high, high_digits, high_less, increment, is_digits, lemma_div_mod, lemma_low_bound,
    lemma_split, low, push_high, value, widen,
};
use crate::double::{power, scaled_digits, Double};
use crate::text::{dec, int_dec, lemma_ten_positive, push_int, push_zeros, repeated, ten};
use vstd::prelude::*;
use vstd::string::*;

verus! {

/// How many decimal places a multiple of two to the power of `e` can have.
pub open spec fn decimal_places(e: int) -> nat {
    if e < 0 { (-e) as nat } else { 0 }
}

/// `n` times two to the power of `e`, counted in units of the last of its
/// [`decimal_places`].
pub open spec fn in_units(n: nat, e: int) -> nat {
    if e < 0 { n * power(5, (-e) as nat) } else { n * power(2, e as nat) }
}

impl Double {
    /// The exponent of a quarter of the last binary place.
    pub open spec fn quarter(self) -> int {
        self.exponent() - 2
    }

    /// The magnitude.
    pub open spec fn centre(self) -> nat {
        in_units(4 * self.significand(), self.quarter())
    }

    /// Halfway to the next smaller magnitude; below a power of two that is
    /// half as far.
    pub open spec fn lower_bound(self) -> nat {
        if self.significand() == 0x10_0000_0000_0000 {
            in_units((4 * self.significand() - 1) as nat, self.quarter())
        } else {
            in_units((4 * self.significand() - 2) as nat, self.quarter())
        }
    }

    /// Halfway to the next larger magnitude.
    pub open spec fn upper_bound(self) -> nat {
        in_units(4 * self.significand() + 2, self.quarter())
    }

    /// Whether `m` times ten to the power of `t` rounds to this magnitude: it
    /// lies between the bounds, or on one where ties go to this significand.
    pub open spec fn admits(self, m: nat, t: nat) -> bool {
        let c = m * ten(t);
        if self.significand() % 2 == 0 {
            self.lower_bound() <= c <= self.upper_bound()
        } else {
            self.lower_bound() < c < self.upper_bound()
        }
    }

    /// How far `m` times ten to the power of `t` is from the magnitude.
    pub open spec fn distance(self, m: nat, t: nat) -> nat {
        let c = m * ten(t);
        if c <= self.centre() { (self.centre() - c) as nat } else { (c - self.centre()) as nat }
    }

    /// Whether `m` times ten to the power of `t` has the fewest digits that
    /// still round to this magnitude and, among those, is the nearest, the
    /// larger of two equally near.
    pub open spec fn is_shortest(self, m: nat, t: nat) -> bool {
        &&& self.admits(m, t)
        &&& forall|m2: nat, t2: nat| t2 > t ==> !#[trigger] self.admits(m2, t2)
        &&& forall|m2: nat| #[trigger]
            self.admits(m2, t) ==> self.distance(m, t) < self.distance(m2, t) || (
            self.distance(m, t) == self.distance(m2, t) && m2 <= m)
    }

    /// The shortest decimal: its digits and their power of ten.
    pub open spec fn shortest(self) -> (nat, nat) {
        choose|m: nat, t: nat| self.is_shortest(m, t)
    }

    /// The number as its shortest decimal, at least one place behind the point.
    pub open spec fn debug_text(self) -> Seq<char> {
        if self.is_nan() {
            "NaN"@
        } else if self.is_infinite() {
            self.sign_text() + "inf"@
        } else if self.significand() == 0 {
            self.sign_text() + "0.0"@
        } else {
            let (m, t) = self.shortest();
            let point = dec(m).len() + t - decimal_places(self.quarter());
            self.sign_text() + layout(dec(m), point)
        }
    }
}

/// Digits with the decimal point before the digit at `point`, or, where that is
/// far away, with one digit before the point and a power of ten.
pub open spec fn layout(digits: Seq<char>, point: int) -> Seq<char> {
    let n = digits.len() as int;
    if point < -3 || point > 16 {
        mantissa(digits) + "e"@ + int_dec(point - 1)
    } else if point <= 0 {
        "0."@ + repeated('0', (-point) as nat) + digits
    } else if point < n {
        digits.subrange(0, point) + "."@ + digits.subrange(point, n)
    } else {
        digits + repeated('0', (point - n) as nat) + ".0"@
    }
}

/// Digits with the decimal point behind the first.
pub open spec fn mantissa(digits: Seq<char>) -> Seq<char> {
    let n = digits.len() as int;
    if n == 1 {
        digits
    } else {
        digits.subrange(0, 1) + "."@ + digits.subrange(1, n)
    }
}

/// There is only one shortest decimal.
pub proof fn lemma_shortest_unique(x: Double, m: nat, t: nat)
    requires
        x.is_shortest(m, t),
    ensures
        x.shortest() == (m, t),
{
    let (m2, t2) = x.shortest();
    assert(x.is_shortest(m2, t2));
    assert(!(t2 > t)) by {
        assert(x.admits(m2, t2));
    }
    assert(!(t > t2)) by {
        assert(x.admits(m, t));
    }
}

/// Ten to the power of a sum.
proof fn lemma_ten_adds(a: nat, b: nat)
    ensures
        ten(a + b) == ten(a) * ten(b),
    decreases b,
{
    if b == 0 {
        assert(ten(a) * 1 == ten(a)) by (nonlinear_arith);
    } else {
        lemma_ten_adds(a, (b - 1) as nat);
        assert(10 * (ten(a) * ten((b - 1) as nat)) == ten(a) * (10 * ten((b - 1) as nat)))
            by (nonlinear_arith);
    }
}

/// What can be written with `t2` zeros can be written with `t` of them.
proof fn lemma_fewer_zeros(x: Double, m2: nat, t2: nat, t: nat)
    requires
        t <= t2,
        x.admits(m2, t2),
    ensures
        x.admits(m2 * ten((t2 - t) as nat), t),
{
    lemma_ten_adds((t2 - t) as nat, t);
    assert(m2 * (ten((t2 - t) as nat) * ten(t)) == m2 * ten((t2 - t) as nat) * ten(t))
        by (nonlinear_arith);
}

/// A decimal text is at most as long as the number of digits that bound it.
proof fn lemma_dec_len(n: nat, k: nat)
    requires
        n < ten(k),
        k > 0,
    ensures
        1 <= dec(n).len() <= k,
    decreases k,
{
    if n >= 10 {
        assert(ten(1) == 10) by {
            reveal_with_fuel(ten, 2);
        }
        lemma_dec_len(n / 10, (k - 1) as nat);
    }
}

/// A quotient is below `h` exactly where the dividend is below `h` divisors.
proof fn lemma_quotient_below(n: nat, p: nat, h: nat)
    requires
        p > 0,
    ensures
        (n / p < h) == (n < h * p),
{
    let q = n / p;
    assert(n == p * q + n % p && n % p < p) by (nonlinear_arith)
        requires
            p > 0,
            q == n / p,
    ;
    if q < h {
        assert(n < h * p) by (nonlinear_arith)
            requires
                n < p * q + p,
                q + 1 <= h,
                p > 0,
        ;
    } else {
        assert(n >= h * p) by (nonlinear_arith)
            requires
                n >= p * q,
                q >= h,
                p > 0,
        ;
    }
}

/// The interval of `x` as digits: what lies above `below` and not above `above`.
spec fn brackets(x: Double, centre: Seq<u8>, below: Seq<u8>, above: Seq<u8>) -> bool {
    &&& is_digits(centre) && is_digits(below) && is_digits(above)
    &&& centre.len() == below.len() == above.len()
    &&& value(centre) == x.centre()
    &&& value(below) < value(centre) <= value(above)
    &&& forall|m: nat, t: nat| #[trigger]
        x.admits(m, t) <==> value(below) < m * ten(t) <= value(above)
}

/// Which of the two neighbours with `t` zeros are admitted.
proof fn lemma_neighbours(x: Double, centre: Seq<u8>, below: Seq<u8>, above: Seq<u8>, t: nat)
    requires
        brackets(x, centre, below, above),
        t <= centre.len(),
    ensures
        ({
            let h = high(centre, t as int);
            &&& x.admits(h, t) <==> high(below, t as int) < h
            &&& x.admits(h + 1, t) <==> h < high(above, t as int)
            &&& h * ten(t) <= x.centre() < (h + 1) * ten(t)
            &&& x.centre() == h * ten(t) + low(centre, t as int)
        }),
{
    let h = high(centre, t as int);
    let p = ten(t);
    lemma_ten_positive(t);
    lemma_div_mod(centre, t as int);
    lemma_div_mod(below, t as int);
    lemma_div_mod(above, t as int);
    lemma_split(centre, t as int);
    lemma_low_bound(centre, t as int);
    lemma_quotient_below(value(below), p, h);
    lemma_quotient_below(value(above), p, h + 1);
    assert(p * h == h * p && (h + 1) * p == h * p + p) by (nonlinear_arith);
}

/// Where neither neighbour with `t` zeros is admitted, nothing with `t` zeros is.
proof fn lemma_none(x: Double, centre: Seq<u8>, below: Seq<u8>, above: Seq<u8>, t: nat, m: nat)
    requires
        brackets(x, centre, below, above),
        t <= centre.len(),
        x.admits(m, t),
    ensures
        m <= high(centre, t as int) ==> x.admits(high(centre, t as int), t),
        m > high(centre, t as int) ==> x.admits(high(centre, t as int) + 1, t),
{
    let h = high(centre, t as int);
    let p = ten(t);
    lemma_neighbours(x, centre, below, above, t);
    if m <= h {
        assert(m * p <= h * p) by (nonlinear_arith)
            requires
                m <= h,
        ;
    } else {
        assert((h + 1) * p <= m * p) by (nonlinear_arith)
            requires
                h + 1 <= m,
        ;
    }
}

/// The digit below `t` tells whether the rest is at least half a unit.
proof fn lemma_half(d: Seq<u8>, t: int)
    requires
        is_digits(d),
        0 < t <= d.len(),
    ensures
        (d[t - 1] >= 5) == (2 * low(d, t) >= ten(t as nat)),
{
    let p = ten((t - 1) as nat);
    lemma_low_bound(d, t - 1);
    assert(d[t - 1] < 10);
    if d[t - 1] >= 5 {
        assert(2 * (d[t - 1] * p) >= 10 * p) by (nonlinear_arith)
            requires
                d[t - 1] >= 5,
        ;
    } else {
        assert(2 * (d[t - 1] * p) <= 8 * p) by (nonlinear_arith)
            requires
                d[t - 1] <= 4,
        ;
    }
}

/// The nearer admitted neighbour is the nearest of all that are admitted.
proof fn lemma_nearest(
    x: Double,
    centre: Seq<u8>,
    below: Seq<u8>,
    above: Seq<u8>,
    t: nat,
    m: nat,
)
    requires
        brackets(x, centre, below, above),
        t <= centre.len(),
        x.admits(m, t),
        ({
            let h = high(centre, t as int);
            let rest = low(centre, t as int);
            ||| m == h && (x.admits(h + 1, t) ==> 2 * rest < ten(t))
            ||| m == h + 1 && (x.admits(h, t) ==> 2 * rest >= ten(t))
        }),
    ensures
        forall|m2: nat| #[trigger]
            x.admits(m2, t) ==> x.distance(m, t) < x.distance(m2, t) || (x.distance(m, t)
                == x.distance(m2, t) && m2 <= m),
{
    let h = high(centre, t as int);
    let p = ten(t);
    lemma_ten_positive(t);
    lemma_neighbours(x, centre, below, above, t);
    assert forall|m2: nat| #[trigger] x.admits(m2, t) implies x.distance(m, t) < x.distance(m2, t)
        || (x.distance(m, t) == x.distance(m2, t) && m2 <= m) by {
        lemma_none(x, centre, below, above, t, m2);
        assert((h + 1) * p == h * p + p) by (nonlinear_arith);
        if m2 < h {
            assert(m2 * p + p <= h * p) by (nonlinear_arith)
                requires
                    m2 + 1 <= h,
            ;
        } else if m2 > h + 1 {
            assert(h * p + 2 * p <= m2 * p) by (nonlinear_arith)
                requires
                    h + 2 <= m2,
            ;
        }
    }
}

/// The digits of `n` times two to the power of `e` in units of its last place.
fn unit_digits(n: u64, e: i64) -> (d: Vec<u8>)
    requires
        -1076 <= e <= 969,
    ensures
        is_digits(d@),
        value(d@) == in_units(n as nat, e as int),
        d@.len() <= 1100,
{
    if e < 0 {
        scaled_digits(n, 5, (-e) as usize)
    } else {
        scaled_digits(n, 2, e as usize)
    }
}

/// A larger number of units is larger.
proof fn lemma_units_grow(a: nat, b: nat, e: int)
    requires
        a < b,
    ensures
        in_units(a, e) < in_units(b, e),
{
    let p = if e < 0 { power(5, (-e) as nat) } else { power(2, e as nat) };
    if e < 0 {
        lemma_power_positive(5, (-e) as nat);
    } else {
        lemma_power_positive(2, e as nat);
    }
    assert(a * p < b * p) by (nonlinear_arith)
        requires
            a < b,
            p > 0,
    ;
}

/// A power of a positive number is positive.
pub proof fn lemma_power_positive(base: nat, n: nat)
    requires
        base > 0,
    ensures
        power(base, n) > 0,
    decreases n,
{
    if n > 0 {
        lemma_power_positive(base, (n - 1) as nat);
        assert(base * power(base, (n - 1) as nat) > 0) by (nonlinear_arith)
            requires
                base > 0,
                power(base, (n - 1) as nat) > 0,
        ;
    }
}

impl Double {
    /// The magnitude and the ends of what rounds to it, as digits of one length.
    fn bracket_digits(self) -> (result: (Vec<u8>, Vec<u8>, Vec<u8>))
        requires
            !self.is_nan(),
            !self.is_infinite(),
            self.significand() > 0,
        ensures
            brackets(self, result.0@, result.1@, result.2@),
            result.0@.len() <= 1100,
    {
        let (significand, exponent): (u64, i64) = self.parts();
        let quarter: i64 = exponent - 2;
        let mut centre: Vec<u8> = unit_digits(4 * significand, quarter);
        let mut above: Vec<u8> = unit_digits(4 * significand + 2, quarter);
        let gap: u64 = if significand == 0x10_0000_0000_0000 { 1 } else { 2 };
        let mut below: Vec<u8> = unit_digits(4 * significand - gap, quarter);
        proof {
            let s = significand as nat;
            lemma_units_grow((4 * s - gap) as nat, 4 * s, quarter as int);
            lemma_units_grow(4 * s, 4 * s + 2, quarter as int);
            lemma_units_grow(0, (4 * s - gap) as nat, quarter as int);
            assert(in_units(0, quarter as int) == 0);
        }
        if significand % 2 == 0 {
            decrement(&mut below);
        } else {
            decrement(&mut above);
        }
        let mut len: usize = centre.len();
        if above.len() > len {
            len = above.len();
        }
        if below.len() > len {
            len = below.len();
        }
        widen(&mut centre, len);
        widen(&mut below, len);
        widen(&mut above, len);
        (centre, below, above)
    }

    /// The digits of the shortest decimal and their power of ten.
    fn shortest_digits(self) -> (result: (Vec<u8>, usize))
        requires
            !self.is_nan(),
            !self.is_infinite(),
            self.significand() > 0,
        ensures
            is_digits(result.0@),
            result.0@.len() <= 1101,
            result.1 <= 1100,
            self.is_shortest(value(result.0@), result.1 as nat),
            self.shortest() == (value(result.0@), result.1 as nat),
    {
        let (centre, below, above): (Vec<u8>, Vec<u8>, Vec<u8>) = self.bracket_digits();
        let mut t: usize = 0;
        proof {
            lemma_split(centre@, 0);
            lemma_split(below@, 0);
            assert(ten(0) * high(centre@, 0) == high(centre@, 0)) by (nonlinear_arith)
                requires
                    ten(0) == 1,
            ;
            assert(ten(0) * high(below@, 0) == high(below@, 0)) by (nonlinear_arith)
                requires
                    ten(0) == 1,
            ;
        }
        while high_less(&below, &centre, t + 1) || high_less(&centre, &above, t + 1)
            invariant
                brackets(self, centre@, below@, above@),
                t < centre@.len() <= 1100,
                high(below@, t as int) < high(centre@, t as int) || high(centre@, t as int) < high(
                    above@,
                    t as int,
                ),
            decreases centre@.len() - t,
        {
            t += 1;
        }
        let floor_admitted: bool = high_less(&below, &centre, t);
        let ceiling_admitted: bool = high_less(&centre, &above, t);
        let up: bool = ceiling_admitted && (!floor_admitted || (t > 0 && centre[t - 1] >= 5));
        let mut digits: Vec<u8> = high_digits(&centre, t);
        if up {
            increment(&mut digits);
        }
        proof {
            let m = value(digits@);
            let tn = t as nat;
            lemma_neighbours(self, centre@, below@, above@, tn);
            lemma_neighbours(self, centre@, below@, above@, tn + 1);
            if t > 0 {
                lemma_half(centre@, t as int);
            }
            lemma_nearest(self, centre@, below@, above@, tn, m);
            assert forall|m2: nat, t2: nat| t2 > tn implies !#[trigger] self.admits(m2, t2) by {
                if self.admits(m2, t2) {
                    lemma_fewer_zeros(self, m2, t2, tn + 1);
                    lemma_none(
                        self,
                        centre@,
                        below@,
                        above@,
                        tn + 1,
                        m2 * ten((t2 - (tn + 1)) as nat),
                    );
                }
            }
            assert(self.is_shortest(m, tn));
            lemma_shortest_unique(self, m, tn);
        }
        (digits, t)
    }
}

/// Appends digits with their decimal point.
fn push_layout(out: &mut String, digits: &str, point: i64)
    requires
        1 <= digits@.len() <= 1200,
        -2000 <= point <= 4000,
    ensures
        final(out)@ == old(out)@ + layout(digits@, point as int),
{
    let n: usize = digits.unicode_len();
    if point < -3 || point > 16 {
        if n == 1 {
            out.append(digits);
        } else {
            out.append(digits.substring_char(0, 1));
            out.append(".");
            out.append(digits.substring_char(1, n));
        }
        assert(out@ =~= old(out)@ + mantissa(digits@));
        out.append("e");
        push_int(out, point - 1);
    } else if point <= 0 {
        out.append("0.");
        push_zeros(out, (-point) as usize);
        out.append(digits);
    } else if point < n as i64 {
        out.append(digits.substring_char(0, point as usize));
        out.append(".");
        out.append(digits.substring_char(point as usize, n));
    } else {
        out.append(digits);
        push_zeros(out, point as usize - n);
        out.append(".0");
    }
    assert(out@ =~= old(out)@ + layout(digits@, point as int));
}

impl Double {
    /// Appends the number as its shortest decimal.
    pub fn push_debug_text(self, out: &mut String)
        ensures
            final(out)@ == old(out)@ + self.debug_text(),
            !self.is_nan() && !self.is_infinite() && self.significand() > 0 ==> self.is_shortest(
                self.shortest().0,
                self.shortest().1,
            ),
    {
        let (field, fraction): (u64, u64) = self.fields();
        if field == 0x7ff && fraction != 0 {
            out.append("NaN");
            return;
        }
        if self.sign() {
            out.append("-");
        }
        assert(out@ =~= old(out)@ + self.sign_text());
        if field == 0x7ff {
            out.append("inf");
            assert(out@ =~= old(out)@ + self.debug_text());
            return;
        }
        let (significand, exponent): (u64, i64) = self.parts();
        if significand == 0 {
            out.append("0.0");
            assert(out@ =~= old(out)@ + self.debug_text());
            return;
        }
        let (digits, t): (Vec<u8>, usize) = self.shortest_digits();
        let mut text: String = String::new();
        proof {
            lemma_split(digits@, 0);
            assert(ten(0) * high(digits@, 0) == high(digits@, 0)) by (nonlinear_arith)
                requires
                    ten(0) == 1,
            ;
            lemma_low_bound(digits@, digits@.len() as int);
            if digits@.len() == 0 {
                lemma_dec_len(value(digits@), 1);
            } else {
                lemma_dec_len(value(digits@), digits@.len());
            }
        }
        push_high(&mut text, &digits, 0);
        assert(text@ =~= dec(value(digits@)));
        let places: i64 = if exponent < 2 { 2 - exponent } else { 0 };
        let point: i64 = text.as_str().unicode_len() as i64 + t as i64 - places;
        push_layout(out, text.as_str(), point);
        assert(out@ =~= old(out)@ + self.debug_text());
    }
}

} // verus!
