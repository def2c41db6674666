//! Quotients shown with a fixed number of decimal places.

use crate::text::{dec, dec_padded, push_dec, push_dec_padded, ten};
use vstd::prelude::*;
use vstd::string::*;

verus! {

/// The most places that a quotient is shown with.
pub const MAX_PLACES: usize = 4;

/// The integer nearest to `num / den`; of two equally near, the even one.
pub open spec fn nearest(num: nat, den: nat) -> nat {
    let quotient = num / den;
    let rest = num % den;
    if 2 * rest > den || (2 * rest == den && quotient % 2 == 1) {
        quotient + 1
    } else {
        quotient
    }
}

/// `num / den`, rounded to `places` decimal places.
pub open spec fn fixed(num: nat, den: nat, places: nat) -> Seq<char> {
    let unit = ten(places);
    let scaled = nearest(num * unit, den);
    dec(scaled / unit) + "."@ + dec_padded(scaled % unit, places)
}

/// `num / den` as [`fixed`] shows it, always with a sign.
pub open spec fn signed_fixed(num: int, den: nat, places: nat) -> Seq<char> {
    if num < 0 {
        "-"@ + fixed((-num) as nat, den, places)
    } else {
        "+"@ + fixed(num as nat, den, places)
    }
}

/// Ten to the power of `places`.
fn unit_of(places: usize) -> (unit: u128)
    requires
        places <= MAX_PLACES,
    ensures
        unit == ten(places as nat),
        1 <= unit <= 10000,
{
    proof {
        reveal_with_fuel(ten, 5);
    }
    match places {
        0 => 1,
        1 => 10,
        2 => 100,
        3 => 1000,
        _ => 10000,
    }
}

/// Appends `num / den` with a fixed number of decimal places.
pub(crate) fn push_fixed(out: &mut String, num: u64, den: u128, places: usize)
    requires
        num < 0x4000_0000_0000_0000,
        0 < den < 0x1_0000_0000_0000_0000_0000_0000,
        places <= MAX_PLACES,
    ensures
        final(out)@ == old(out)@ + fixed(num as nat, den as nat, places as nat),
{
    let unit: u128 = unit_of(places);
    assert(num * unit <= 0x4000_0000_0000_0000 * 10000) by (nonlinear_arith)
        requires
            num < 0x4000_0000_0000_0000,
            1 <= unit <= 10000,
    ;
    let product: u128 = num as u128 * unit;
    let quotient: u128 = product / den;
    let rest: u128 = product % den;
    assert(quotient <= product) by (nonlinear_arith)
        requires
            quotient == product / den,
            den > 0,
    ;
    let scaled: u128 = if 2 * rest > den || (2 * rest == den && quotient % 2 == 1) {
        quotient + 1
    } else {
        quotient
    };
    assert(scaled / unit <= num + 1 && 0 <= scaled % unit < unit) by (nonlinear_arith)
        requires
            scaled <= num * unit + 1,
            unit >= 1,
    ;
    assert(scaled as nat == nearest(num as nat * unit as nat, den as nat));
    push_dec(out, (scaled / unit) as u64);
    out.append(".");
    push_dec_padded(out, (scaled % unit) as u64, places);
    assert(out@ =~= old(out)@ + fixed(num as nat, den as nat, places as nat));
}

/// Appends `num / den` with its sign and a fixed number of decimal places.
pub(crate) fn push_signed_fixed(out: &mut String, num: i64, den: u64, places: usize)
    requires
        -0x4000_0000_0000_0000 < num < 0x4000_0000_0000_0000,
        den > 0,
        places <= MAX_PLACES,
    ensures
        final(out)@ == old(out)@ + signed_fixed(num as int, den as nat, places as nat),
{
    if num < 0 {
        out.append("-");
        push_fixed(out, (-num) as u64, den as u128, places);
    } else {
        out.append("+");
        push_fixed(out, num as u64, den as u128, places);
    }
    assert(out@ =~= old(out)@ + signed_fixed(num as int, den as nat, places as nat));
}

} // verus!
