//! Natural numbers of any size as decimal digits, the lowest first.

use crate::text::{dec, digit, digit_str, lemma_ten_positive, ten};
use vstd::arithmetic::div_mod::lemma_fundamental_div_mod_converse;
use vstd::prelude::*;
use vstd::string::*;

verus! {

/// Every element is one decimal digit.
pub open spec fn is_digits(d: Seq<u8>) -> bool {
    forall|i: int| 0 <= i < d.len() ==> #[trigger] d[i] < 10
}

/// The number that the lowest `t` digits make.
pub open spec fn low(d: Seq<u8>, t: int) -> nat
    decreases t,
{
    if t <= 0 {
        0
    } else {
        low(d, t - 1) + d[t - 1] as nat * ten((t - 1) as nat)
    }
}

/// The number that the digits from `t` upwards make.
pub open spec fn high(d: Seq<u8>, t: int) -> nat
    decreases d.len() - t,
{
    if t >= d.len() {
        0
    } else {
        d[t] as nat + 10 * high(d, t + 1)
    }
}

/// The number that all digits make.
pub open spec fn value(d: Seq<u8>) -> nat {
    low(d, d.len() as int)
}

/// The digits below `t` and those from `t` upwards make up the number.
pub proof fn lemma_split(d: Seq<u8>, t: int)
    requires
        0 <= t <= d.len(),
    ensures
        value(d) == low(d, t) + ten(t as nat) * high(d, t),
    decreases d.len() - t,
{
    if t < d.len() {
        lemma_split(d, t + 1);
        let p = ten(t as nat);
        let h = high(d, t + 1) as int;
        assert(ten((t + 1) as nat) == 10 * p);
        assert(10 * p * h + d[t] * p == p * (d[t] + 10 * h)) by (nonlinear_arith);
    } else {
        assert(ten(t as nat) * 0 == 0) by (nonlinear_arith);
    }
}

/// The lowest `t` digits make less than ten to the power of `t`.
pub proof fn lemma_low_bound(d: Seq<u8>, t: int)
    requires
        is_digits(d),
        0 <= t <= d.len(),
    ensures
        low(d, t) < ten(t as nat),
    decreases t,
{
    if t > 0 {
        lemma_low_bound(d, t - 1);
        let p = ten((t - 1) as nat);
        assert(ten(t as nat) == 10 * p);
        assert(d[t - 1] < 10);
        assert(d[t - 1] * p + p <= 10 * p) by (nonlinear_arith)
            requires
                d[t - 1] < 10,
                p >= 0,
        ;
    }
}

/// Dropping the lowest `t` digits divides by ten to the power of `t`.
pub proof fn lemma_div_mod(d: Seq<u8>, t: int)
    requires
        is_digits(d),
        0 <= t <= d.len(),
    ensures
        ten(t as nat) > 0,
        value(d) / ten(t as nat) == high(d, t),
        value(d) % ten(t as nat) == low(d, t),
{
    lemma_split(d, t);
    lemma_low_bound(d, t);
    lemma_ten_positive(t as nat);
    let p = ten(t as nat);
    assert(high(d, t) * p == p * high(d, t)) by (nonlinear_arith);
    lemma_fundamental_div_mod_converse(
        value(d) as int,
        p as int,
        high(d, t) as int,
        low(d, t) as int,
    );
}

/// `low` looks at the lowest digits alone.
proof fn lemma_low_same(a: Seq<u8>, b: Seq<u8>, t: int)
    requires
        0 <= t <= a.len(),
        t <= b.len(),
        forall|i: int| 0 <= i < t ==> a[i] == b[i],
    ensures
        low(a, t) == low(b, t),
    decreases t,
{
    if t > 0 {
        lemma_low_same(a, b, t - 1);
    }
}

/// `high` looks at the highest digits alone.
proof fn lemma_high_same(a: Seq<u8>, b: Seq<u8>, t: int)
    requires
        0 <= t,
        a.len() == b.len(),
        forall|i: int| t <= i < a.len() ==> a[i] == b[i],
    ensures
        high(a, t) == high(b, t),
    decreases a.len() - t,
{
    if t < a.len() {
        lemma_high_same(a, b, t + 1);
    }
}

/// `high` of a number and of its upper part.
proof fn lemma_high_shift(d: Seq<u8>, upper: Seq<u8>, t: int, i: int)
    requires
        0 <= t <= d.len(),
        0 <= i,
        upper == d.subrange(t, d.len() as int),
    ensures
        high(upper, i) == high(d, t + i),
    decreases d.len() - t - i,
{
    if i < upper.len() {
        lemma_high_shift(d, upper, t, i + 1);
    }
}

/// Zeros on top add nothing.
proof fn lemma_high_zero(d: Seq<u8>, t: int)
    requires
        0 <= t,
        forall|i: int| t <= i < d.len() ==> d[i] == 0,
    ensures
        high(d, t) == 0,
    decreases d.len() - t,
{
    if t < d.len() {
        lemma_high_zero(d, t + 1);
    }
}

/// Multiplies by a small factor.
pub(crate) fn multiply(d: &mut Vec<u8>, factor: u8)
    requires
        is_digits(old(d)@),
        1 <= factor <= 10,
    ensures
        is_digits(final(d)@),
        value(final(d)@) == factor * value(old(d)@),
        old(d)@.len() <= final(d)@.len() <= old(d)@.len() + 1,
{
    let ghost before = d@;
    let len: usize = d.len();
    let mut carry: u8 = 0;
    let mut i: usize = 0;
    assert(factor * low(before, 0) == 0) by (nonlinear_arith)
        requires
            low(before, 0) == 0,
    ;
    while i < len
        invariant
            i <= len,
            len == before.len(),
            d@.len() == len,
            1 <= factor <= 10,
            carry < 10,
            is_digits(before),
            is_digits(d@),
            forall|j: int| i <= j < len ==> d@[j] == before[j],
            low(d@, i as int) + carry * ten(i as nat) == factor * low(before, i as int),
        decreases len - i,
    {
        let ghost was = d@;
        let ghost carried = carry;
        let digit: u8 = d[i];
        assert(digit * factor + carry <= 99) by (nonlinear_arith)
            requires
                digit < 10,
                factor <= 10,
                carry < 10,
        ;
        let product: u8 = digit * factor + carry;
        d.set(i, product % 10);
        carry = product / 10;
        proof {
                    let p = ten(i as nat);
            let l = low(was, i as int) as int;
            let b = low(before, i as int) as int;
            lemma_low_same(d@, was, i as int);
            assert(ten((i + 1) as nat) == 10 * p);
            assert(l + (product % 10) * p + (product / 10) * (10 * p) == l + product * p)
                by (nonlinear_arith)
                requires
                    product == (product / 10) * 10 + product % 10,
            ;
            assert(l + product * p == factor * (b + digit * p)) by (nonlinear_arith)
                requires
                    l + carried * p == factor * b,
                    product == digit * factor + carried,
            ;
        }
        i += 1;
    }
    if carry > 0 {
        let ghost was = d@;
        d.push(carry);
        proof {
            lemma_low_same(d@, was, len as int);
        }
    }
}

/// The digits of a machine number.
pub(crate) fn from_u64(n: u64) -> (d: Vec<u8>)
    ensures
        is_digits(d@),
        value(d@) == n,
        d@.len() <= 20,
{
    let mut d: Vec<u8> = Vec::new();
    let mut rest: u64 = n;
    let mut i: usize = 0;
    assert(rest * ten(0) == n) by (nonlinear_arith)
        requires
            ten(0) == 1,
            rest == n,
    ;
    while rest > 0
        invariant
            i == d@.len(),
            is_digits(d@),
            low(d@, i as int) + rest * ten(i as nat) == n,
            i <= 20,
            i == 20 ==> rest == 0,
            ten(i as nat) > 0,
        decreases rest,
    {
        proof {
                    let p = ten(i as nat);
            assert(ten((i + 1) as nat) == 10 * p);
            assert(rest * p == (rest % 10) * p + (rest / 10) * (10 * p)) by (nonlinear_arith)
                requires
                    rest == (rest / 10) * 10 + rest % 10,
            ;
        }
        let ghost was = d@;
        d.push((rest % 10) as u8);
        proof {
            lemma_low_same(d@, was, i as int);
        }
        rest = rest / 10;
        i += 1;
        proof {
            if i == 20 {
                let p = ten(i as nat);
                reveal_with_fuel(ten, 21);
                assert(p == 100_000_000_000_000_000_000);
                assert(rest * p <= n);
                assert(rest == 0) by (nonlinear_arith)
                    requires
                        rest * p <= n,
                        p == 100_000_000_000_000_000_000,
                        n <= 0xffff_ffff_ffff_ffff,
                        rest >= 0,
                ;
            }
        }
    }
    assert(0 * ten(i as nat) == 0);
    d
}

/// Appends zeros on top, up to `len` digits.
pub(crate) fn widen(d: &mut Vec<u8>, len: usize)
    requires
        is_digits(old(d)@),
    ensures
        is_digits(final(d)@),
        value(final(d)@) == value(old(d)@),
        final(d)@.len() == if old(d)@.len() < len { len as nat } else { old(d)@.len() },
{
    while d.len() < len
        invariant
            is_digits(d@),
            value(d@) == value(old(d)@),
            old(d)@.len() <= d@.len(),
            d@.len() <= len || d@.len() == old(d)@.len(),
        decreases len - d.len(),
    {
        let ghost was = d@;
        d.push(0);
        proof {
            lemma_low_same(d@, was, was.len() as int);
            assert(0 * ten(was.len()) == 0);
        }
    }
}

/// Adds one.
pub(crate) fn increment(d: &mut Vec<u8>)
    requires
        is_digits(old(d)@),
    ensures
        is_digits(final(d)@),
        value(final(d)@) == value(old(d)@) + 1,
        old(d)@.len() <= final(d)@.len() <= old(d)@.len() + 1,
{
    let ghost before = d@;
    let len: usize = d.len();
    let mut i: usize = 0;
    while i < len && d[i] == 9
        invariant
            i <= len,
            len == before.len(),
            d@.len() == len,
            is_digits(before),
            is_digits(d@),
            forall|j: int| i <= j < len ==> d@[j] == before[j],
            low(d@, i as int) == 0,
            low(before, i as int) + 1 == ten(i as nat),
        decreases len - i,
    {
        let ghost was = d@;
        d.set(i, 0);
        proof {
            lemma_low_same(d@, was, i as int);
            assert(0 * ten(i as nat) == 0);
        }
        i += 1;
    }
    let ghost was = d@;
    if i < len {
        d.set(i, d[i] + 1);
        proof {
            lemma_low_same(d@, was, i as int);
            lemma_high_same(d@, before, i + 1);
            lemma_split(d@, i + 1);
            lemma_split(before, i + 1);
            let p = ten(i as nat);
            assert(d@[i as int] * p == before[i as int] * p + p) by (nonlinear_arith)
                requires
                    d@[i as int] == before[i as int] + 1,
            ;
        }
    } else {
        d.push(1);
        proof {
            lemma_low_same(d@, was, len as int);
        }
    }
}

/// Subtracts one.
pub(crate) fn decrement(d: &mut Vec<u8>)
    requires
        is_digits(old(d)@),
        value(old(d)@) > 0,
    ensures
        is_digits(final(d)@),
        value(final(d)@) == value(old(d)@) - 1,
        final(d)@.len() == old(d)@.len(),
{
    let ghost before = d@;
    let len: usize = d.len();
    let mut i: usize = 0;
    while i < len && d[i] == 0
        invariant
            i <= len,
            len == before.len(),
            d@.len() == len,
            is_digits(before),
            is_digits(d@),
            forall|j: int| i <= j < len ==> d@[j] == before[j],
            low(d@, i as int) + 1 == ten(i as nat),
            low(before, i as int) == 0,
        decreases len - i,
    {
        let ghost was = d@;
        d.set(i, 9);
        proof {
            lemma_low_same(d@, was, i as int);
            assert(0 * ten(i as nat) == 0);
        }
        i += 1;
    }
    let ghost was = d@;
    assert(i < len);
    d.set(i, d[i] - 1);
    proof {
        lemma_low_same(d@, was, i as int);
        lemma_high_same(d@, before, i + 1);
        lemma_split(d@, i + 1);
        lemma_split(before, i + 1);
        let p = ten(i as nat);
        assert(d@[i as int] * p + p == before[i as int] * p) by (nonlinear_arith)
            requires
                d@[i as int] + 1 == before[i as int],
        ;
    }
}

/// Whether the digits from `t` upwards make less in `a` than in `b`.
pub(crate) fn high_less(a: &Vec<u8>, b: &Vec<u8>, t: usize) -> (less: bool)
    requires
        is_digits(a@),
        is_digits(b@),
        a@.len() == b@.len(),
        t <= a@.len(),
    ensures
        less == (high(a@, t as int) < high(b@, t as int)),
{
    let mut i: usize = a.len();
    let mut less: bool = false;
    let mut equal: bool = true;
    while i > t
        invariant
            is_digits(a@),
            is_digits(b@),
            a@.len() == b@.len(),
            t <= i <= a@.len(),
            equal == (high(a@, i as int) == high(b@, i as int)),
            less == (high(a@, i as int) < high(b@, i as int)),
        decreases i,
    {
        i -= 1;
        assert(a@[i as int] < 10 && b@[i as int] < 10);
        if equal {
            less = a[i] < b[i];
            equal = a[i] == b[i];
        }
    }
    less
}

/// The digits from `t` upwards as a number of their own.
pub(crate) fn high_digits(d: &Vec<u8>, t: usize) -> (result: Vec<u8>)
    requires
        is_digits(d@),
        t <= d@.len(),
    ensures
        is_digits(result@),
        value(result@) == high(d@, t as int),
        result@.len() == d@.len() - t,
{
    let mut result: Vec<u8> = Vec::new();
    let mut i: usize = t;
    while i < d.len()
        invariant
            is_digits(d@),
            t <= i <= d@.len(),
            result@ =~= d@.subrange(t as int, i as int),
        decreases d.len() - i,
    {
        result.push(d[i]);
        i += 1;
    }
    proof {
        lemma_high_shift(d@, result@, t as int, 0);
        lemma_split(result@, 0);
        assert(ten(0) * high(result@, 0) == high(result@, 0)) by (nonlinear_arith)
            requires
                ten(0) == 1,
        ;
    }
    result
}

/// One past the highest digit from `t` upwards that is not zero, or `t`.
fn top(d: &Vec<u8>, t: usize) -> (n: usize)
    requires
        t <= d@.len(),
    ensures
        t <= n <= d@.len(),
        n > t ==> d@[n - 1] != 0,
        forall|i: int| n <= i < d@.len() ==> d@[i] == 0,
{
    let mut n: usize = d.len();
    while n > t && d[n - 1] == 0
        invariant
            t <= n <= d@.len(),
            forall|i: int| n <= i < d@.len() ==> d@[i] == 0,
        decreases n,
    {
        n -= 1;
    }
    n
}

/// Appends the number that the digits from `t` upwards make.
pub(crate) fn push_high(out: &mut String, d: &Vec<u8>, t: usize)
    requires
        is_digits(d@),
        t <= d@.len(),
    ensures
        final(out)@ == old(out)@ + dec(high(d@, t as int)),
{
    let n: usize = top(d, t);
    proof {
        lemma_high_zero(d@, n as int);
    }
    if n == t {
        out.append(digit_str(0));
        assert(out@ =~= old(out)@ + dec(0));
        return;
    }
    let mut i: usize = n - 1;
    out.append(digit_str(d[i]));
    assert(high(d@, i as int) == d@[i as int]);
    assert(out@ =~= old(out)@ + dec(high(d@, i as int)));
    while i > t
        invariant
            is_digits(d@),
            t <= i < d@.len(),
            out@ =~= old(out)@ + dec(high(d@, i as int)),
            high(d@, i as int) > 0,
        decreases i,
    {
        let ghost above = high(d@, i as int);
        i -= 1;
        assert(d@[i as int] < 10);
        out.append(digit_str(d[i]));
        proof {
            let h = high(d@, i as int);
            assert(h == d@[i as int] + 10 * above);
            assert(h / 10 == above && h % 10 == d@[i as int]);
            assert(dec(h) =~= dec(above) + seq![digit(d@[i as int] as int)]);
        }
    }
}

} // verus!
