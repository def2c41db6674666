//! Double-precision numbers, held as their bit patterns, as text.

use crate::decimal::{fixed, push_fixed, MAX_PLACES};
use crate::digits::{from_u64, high, is_digits, lemma_split, multiply, push_high, value};
use crate::text::{dec, dec_padded, lemma_ten_positive, push_zeros, repeated, ten};
use vstd::arithmetic::div_mod::lemma_fundamental_div_mod_converse;
use vstd::prelude::*;
use vstd::string::*;

verus! {

/// A double-precision number, as the bits of its IEEE 754 binary64 form.
#[derive(Clone, Copy, Debug, PartialEq, Eq)]
pub struct Double {
    pub bits: u64,
}

/// `base` to the power of `n`.
pub open spec fn power(base: nat, n: nat) -> nat
    decreases n,
{
    if n == 0 { 1 } else { base * power(base, (n - 1) as nat) }
}

impl Double {
    /// The sign bit.
    pub open spec fn negative(self) -> bool {
        self.bits >= 0x8000_0000_0000_0000
    }

    /// The exponent field.
    pub open spec fn exponent_field(self) -> int {
        ((self.bits / 0x10_0000_0000_0000) % 0x800) as int
    }

    /// The fraction field.
    pub open spec fn fraction_field(self) -> nat {
        (self.bits % 0x10_0000_0000_0000) as nat
    }

    /// Not a number.
    pub open spec fn is_nan(self) -> bool {
        self.exponent_field() == 0x7ff && self.fraction_field() != 0
    }

    /// One of the two infinities.
    pub open spec fn is_infinite(self) -> bool {
        self.exponent_field() == 0x7ff && self.fraction_field() == 0
    }

    /// The significand of a finite number.
    pub open spec fn significand(self) -> nat {
        if self.exponent_field() == 0 {
            self.fraction_field()
        } else {
            self.fraction_field() + 0x10_0000_0000_0000
        }
    }

    /// The power of two that the significand of a finite number is multiplied by.
    pub open spec fn exponent(self) -> int {
        if self.exponent_field() == 0 { -1074 } else { self.exponent_field() - 1075 }
    }

    /// A minus sign, or nothing.
    pub open spec fn sign_text(self) -> Seq<char> {
        if self.negative() { "-"@ } else { Seq::empty() }
    }

    /// The magnitude of a finite number with `places` decimal places.
    pub open spec fn magnitude_fixed(self, places: nat) -> Seq<char> {
        if self.exponent() >= 0 {
            fixed(self.significand() * power(2, self.exponent() as nat), 1, places)
        } else {
            fixed(self.significand(), power(2, (-self.exponent()) as nat), places)
        }
    }

    /// The number with `places` decimal places.
    pub open spec fn fixed_text(self, places: nat) -> Seq<char> {
        if self.is_nan() {
            "NaN"@
        } else if self.is_infinite() {
            self.sign_text() + "inf"@
        } else {
            self.sign_text() + self.magnitude_fixed(places)
        }
    }
}

/// A larger exponent gives no smaller power of two.
proof fn lemma_power_two_grows(a: nat, b: nat)
    requires
        a <= b,
    ensures
        0 < power(2, a) <= power(2, b),
    decreases b,
{
    if a < b {
        lemma_power_two_grows(a, (b - 1) as nat);
    } else if a > 0 {
        lemma_power_two_grows((a - 1) as nat, (b - 1) as nat);
    }
}

/// The digits of zero are zeros.
proof fn lemma_dec_padded_zero(width: nat)
    ensures
        dec_padded(0, width) == repeated('0', width),
    decreases width,
{
    if width > 0 {
        lemma_dec_padded_zero((width - 1) as nat);
    }
    assert(dec_padded(0, width) =~= repeated('0', width));
}

/// A whole number has zeros behind the point.
proof fn lemma_fixed_whole(n: nat, places: nat)
    ensures
        fixed(n, 1, places) == dec(n) + "."@ + repeated('0', places),
{
    let unit = ten(places);
    lemma_ten_positive(places);
    lemma_fundamental_div_mod_converse((n * unit) as int, unit as int, n as int, 0);
    lemma_dec_padded_zero(places);
}

/// What is less than half a unit of the last place is shown as zero.
proof fn lemma_fixed_tiny(num: nat, den: nat, places: nat)
    requires
        2 * (num * ten(places)) < den,
    ensures
        fixed(num, den, places) == dec(0) + "."@ + repeated('0', places),
{
    let product = num * ten(places);
    lemma_ten_positive(places);
    lemma_fundamental_div_mod_converse(product as int, den as int, 0, product as int);
    lemma_fundamental_div_mod_converse(0, ten(places) as int, 0, 0);
    lemma_dec_padded_zero(places);
}

/// Two to the power of ninety, spelled out.
proof fn lemma_power_two_ninety()
    ensures
        power(2, 90) == 0x400_0000_0000_0000_0000_0000,
{
    reveal_with_fuel(power, 31);
    assert(power(2, 30) == 0x4000_0000);
    assert(power(2, 60) == 0x4000_0000 * power(2, 30));
    assert(power(2, 90) == 0x4000_0000 * power(2, 60));
}

/// Two to the power of `n`.
fn power_of_two(n: usize) -> (result: u128)
    requires
        n <= 90,
    ensures
        result == power(2, n as nat),
        0 < result <= 0x400_0000_0000_0000_0000_0000,
{
    let mut result: u128 = 1;
    let mut i: usize = 0;
    proof {
        lemma_power_two_ninety();
    }
    while i < n
        invariant
            i <= n <= 90,
            result == power(2, i as nat),
            power(2, 90) == 0x400_0000_0000_0000_0000_0000,
        decreases n - i,
    {
        proof {
            lemma_power_two_grows((i + 1) as nat, 90);
        }
        result = result * 2;
        i += 1;
    }
    proof {
        lemma_power_two_grows(n as nat, 90);
    }
    result
}

/// The digits of `n` times `factor` to the power of `times`.
pub(crate) fn scaled_digits(n: u64, factor: u8, times: usize) -> (d: Vec<u8>)
    requires
        1 <= factor <= 10,
        times <= 1100,
    ensures
        is_digits(d@),
        value(d@) == n * power(factor as nat, times as nat),
        d@.len() <= 20 + times,
{
    let mut d: Vec<u8> = from_u64(n);
    let mut i: usize = 0;
    assert(n * power(factor as nat, 0) == n) by (nonlinear_arith)
        requires
            power(factor as nat, 0) == 1,
    ;
    while i < times
        invariant
            i <= times,
            1 <= factor <= 10,
            is_digits(d@),
            value(d@) == n * power(factor as nat, i as nat),
            d@.len() <= 20 + i,
        decreases times - i,
    {
        let ghost p = power(factor as nat, i as nat);
        multiply(&mut d, factor);
        assert(factor * (n * p) == n * (factor * p)) by (nonlinear_arith);
        i += 1;
    }
    d
}

impl Double {
    /// The sign bit.
    pub(crate) fn sign(self) -> (negative: bool)
        ensures
            negative == self.negative(),
    {
        self.bits >= 0x8000_0000_0000_0000
    }

    /// The exponent field and the fraction field.
    pub(crate) fn fields(self) -> (fields: (u64, u64))
        ensures
            fields.0 == self.exponent_field(),
            fields.1 == self.fraction_field(),
            fields.0 < 0x800,
            fields.1 < 0x10_0000_0000_0000,
    {
        ((self.bits / 0x10_0000_0000_0000) % 0x800, self.bits % 0x10_0000_0000_0000)
    }

    /// The significand and the exponent of a finite number.
    pub(crate) fn parts(self) -> (parts: (u64, i64))
        requires
            !self.is_nan(),
            !self.is_infinite(),
        ensures
            parts.0 == self.significand(),
            parts.1 == self.exponent(),
            parts.0 < 0x20_0000_0000_0000,
            -1074 <= parts.1 <= 971,
            parts.1 >= -1073 ==> parts.0 >= 0x10_0000_0000_0000,
    {
        let (exponent, fraction): (u64, u64) = self.fields();
        if exponent == 0 {
            (fraction, -1074)
        } else {
            (fraction + 0x10_0000_0000_0000, exponent as i64 - 1075)
        }
    }

    /// Appends the number with `places` decimal places.
    pub fn push_fixed_text(self, out: &mut String, places: usize)
        requires
            places <= MAX_PLACES,
        ensures
            final(out)@ == old(out)@ + self.fixed_text(places as nat),
    {
        let (field, fraction): (u64, u64) = self.fields();
        if field == 0x7ff && fraction != 0 {
            out.append("NaN");
            return;
        }
        if self.sign() {
            out.append("-");
        }
        assert(out@ =~= old(out)@ + self.sign_text());
        if field == 0x7ff {
            out.append("inf");
            assert(out@ =~= old(out)@ + self.fixed_text(places as nat));
            return;
        }
        let (significand, exponent): (u64, i64) = self.parts();
        let ghost signed = out@;
        if exponent >= 0 {
            let d: Vec<u8> = scaled_digits(significand, 2, exponent as usize);
            proof {
                lemma_split(d@, 0);
                assert(ten(0) * high(d@, 0) == high(d@, 0)) by (nonlinear_arith)
                    requires
                        ten(0) == 1,
                ;
                lemma_fixed_whole(value(d@), places as nat);
            }
            push_high(out, &d, 0);
            out.append(".");
            push_zeros(out, places);
            assert(out@ =~= signed + self.magnitude_fixed(places as nat));
        } else if exponent >= -90 {
            let den: u128 = power_of_two((-exponent) as usize);
            push_fixed(out, significand, den, places);
            assert(out@ =~= signed + self.magnitude_fixed(places as nat));
        } else {
            proof {
                let den = power(2, (-exponent) as nat);
                lemma_power_two_ninety();
                lemma_power_two_grows(90, (-exponent) as nat);
                assert(ten(places as nat) <= 10000) by {
                    reveal_with_fuel(ten, 5);
                }
                assert(2 * (significand * ten(places as nat)) < den) by (nonlinear_arith)
                    requires
                        significand < 0x20_0000_0000_0000,
                        ten(places as nat) <= 10000,
                        den >= 0x400_0000_0000_0000_0000_0000,
                ;
                lemma_fixed_tiny(significand as nat, den, places as nat);
            }
            out.append("0.");
            push_zeros(out, places);
            proof {
                reveal_strlit("0.");
                reveal_strlit(".");
                assert("0."@ =~= dec(0) + "."@);
            }
            assert(out@ =~= signed + self.magnitude_fixed(places as nat));
        }
        assert(out@ =~= old(out)@ + self.fixed_text(places as nat));
    }
}

} // verus!
