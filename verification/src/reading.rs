//! Texts read back: what a reader makes of digits, words and names.

use crate::decimal::{fixed, nearest, signed_fixed};
use crate::text::{dec, dec_padded, digit, hex_byte, int_dec, lemma_ten_positive, ten};
use vstd::arithmetic::div_mod::{lemma_fundamental_div_mod, lemma_mod_bound};
use vstd::arithmetic::power::pow;
use vstd::prelude::*;

verus! {

/// Whether a character does not occur in a text.
pub open spec fn lacks(text: Seq<char>, mark: char) -> bool {
    forall|i: int| 0 <= i < text.len() ==> #[trigger] text[i] != mark
}

/// The place of the first `mark`, or the length where there is none.
pub open spec fn place(text: Seq<char>, mark: char) -> int
    decreases text.len(),
{
    if text.len() == 0 || text[0] == mark {
        0
    } else {
        1 + place(text.drop_first(), mark)
    }
}

/// What stands before the first `mark`.
pub open spec fn before(text: Seq<char>, mark: char) -> Seq<char> {
    text.subrange(0, place(text, mark))
}

/// What stands behind the first `mark`.
pub open spec fn after(text: Seq<char>, mark: char) -> Seq<char> {
    if place(text, mark) < text.len() {
        text.subrange(place(text, mark) + 1, text.len() as int)
    } else {
        Seq::empty()
    }
}

/// What stands behind the first `k` spaces.
pub open spec fn rest(text: Seq<char>, k: nat) -> Seq<char>
    decreases k,
{
    if k == 0 {
        text
    } else {
        after(rest(text, (k - 1) as nat), ' ')
    }
}

/// The word behind the first `k` spaces.
pub open spec fn word(text: Seq<char>, k: nat) -> Seq<char> {
    before(rest(text, k), ' ')
}

/// Where the first mark is.
pub proof fn lemma_split_at(head: Seq<char>, mark: char, tail: Seq<char>)
    requires
        lacks(head, mark),
    ensures
        before(head + seq![mark] + tail, mark) == head,
        after(head + seq![mark] + tail, mark) == tail,
{
    let text = head + seq![mark] + tail;
    lemma_place(head, mark, tail);
    assert(before(text, mark) =~= head);
    assert(after(text, mark) =~= tail);
}

/// The first mark stands behind all that lacks it.
proof fn lemma_place(head: Seq<char>, mark: char, tail: Seq<char>)
    requires
        lacks(head, mark),
    ensures
        place(head + seq![mark] + tail, mark) == head.len(),
    decreases head.len(),
{
    let text = head + seq![mark] + tail;
    if head.len() > 0 {
        assert(lacks(head.drop_first(), mark)) by {
            assert forall|i: int| 0 <= i < head.drop_first().len() implies
                #[trigger] head.drop_first()[i] != mark by {
                assert(head[i + 1] != mark);
            }
        }
        lemma_place(head.drop_first(), mark, tail);
        assert(text.drop_first() =~= head.drop_first() + seq![mark] + tail);
        assert(text[0] == head[0]);
    }
}

/// Without a mark all of a text stands before it.
pub proof fn lemma_no_mark(text: Seq<char>, mark: char)
    requires
        lacks(text, mark),
    ensures
        before(text, mark) == text,
        after(text, mark) == Seq::<char>::empty(),
{
    lemma_no_place(text, mark);
    assert(text.subrange(0, text.len() as int) =~= text);
}

/// Without a mark its place is the end.
proof fn lemma_no_place(text: Seq<char>, mark: char)
    requires
        lacks(text, mark),
    ensures
        place(text, mark) == text.len(),
    decreases text.len(),
{
    if text.len() > 0 {
        assert(lacks(text.drop_first(), mark)) by {
            assert forall|i: int| 0 <= i < text.drop_first().len() implies
                #[trigger] text.drop_first()[i] != mark by {
                assert(text[i + 1] != mark);
            }
        }
        lemma_no_place(text.drop_first(), mark);
    }
}

/// One word more.
pub proof fn lemma_next_word(text: Seq<char>, k: nat, head: Seq<char>, tail: Seq<char>)
    requires
        rest(text, k) == head + " "@ + tail,
        lacks(head, ' '),
    ensures
        word(text, k) == head,
        rest(text, k + 1) == tail,
{
    reveal_strlit(" ");
    assert(" "@ =~= seq![' ']);
    lemma_split_at(head, ' ', tail);
}

/// The last word.
pub proof fn lemma_last_word(text: Seq<char>, k: nat, head: Seq<char>)
    requires
        rest(text, k) == head,
        lacks(head, ' '),
    ensures
        word(text, k) == head,
{
    lemma_no_mark(head, ' ');
}

/// Whether a character is a decimal digit.
pub open spec fn is_digit(c: char) -> bool {
    '0' as int <= c as int <= '9' as int
}

/// Whether a text is made of decimal digits alone.
pub open spec fn all_digits(text: Seq<char>) -> bool {
    forall|i: int| 0 <= i < text.len() ==> is_digit(#[trigger] text[i])
}

/// The number that decimal digits make.
pub open spec fn read(text: Seq<char>) -> int
    decreases text.len(),
{
    if text.len() == 0 {
        0
    } else {
        10 * read(text.drop_last()) + (text.last() as int - '0' as int)
    }
}

/// Whether a text is the decimal form of a number: digits alone, at least one,
/// none of them a leading zero, that make that number.
pub open spec fn reads_as(text: Seq<char>, n: int) -> bool {
    &&& text.len() > 0
    &&& all_digits(text)
    &&& text.len() > 1 ==> text[0] != '0'
    &&& read(text) == n
}

/// Whether a text is the decimal form of a number, after a minus sign where the
/// number is negative.
pub open spec fn reads_as_int(text: Seq<char>, n: int) -> bool {
    if n < 0 {
        text.len() > 0 && text[0] == '-' && reads_as(text.drop_first(), -n)
    } else {
        reads_as(text, n)
    }
}

/// The value of a hex digit in upper case, or sixteen for any other character.
pub open spec fn hex_value(c: char) -> int {
    if is_digit(c) {
        c as int - '0' as int
    } else if 'A' as int <= c as int <= 'F' as int {
        c as int - 'A' as int + 10
    } else {
        16
    }
}

/// A natural number reads back as itself.
pub proof fn law_a_number_reads_back(n: nat)
    ensures
        reads_as(dec(n), n as int),
    decreases n,
{
    if n >= 10 {
        law_a_number_reads_back(n / 10);
        let head = dec(n / 10);
        assert(dec(n).drop_last() =~= head);
        assert(dec(n).last() == digit((n % 10) as int));
        assert(dec(n)[0] == head[0]);
        assert forall|i: int| 0 <= i < dec(n).len() implies is_digit(#[trigger] dec(n)[i]) by {
            if i < head.len() {
                assert(dec(n)[i] == head[i]);
            }
        }
        if head.len() == 1 {
            assert(read(head.drop_last()) == 0);
        }
    } else {
        assert(dec(n).drop_last() =~= Seq::empty());
        assert(read(dec(n).drop_last()) == 0);
    }
}

/// A number has one decimal form: what reads as it is what is shown of it.
pub proof fn law_a_number_has_one_form(text: Seq<char>, n: nat)
    requires
        reads_as(text, n as int),
    ensures
        text == dec(n),
    decreases text.len(),
{
    let head = text.drop_last();
    let last = text.last() as int - '0' as int;
    assert(is_digit(text[text.len() - 1]));
    if text.len() == 1 {
        assert(read(head) == 0);
        assert(text =~= dec(n));
    } else {
        assert forall|i: int| 0 <= i < head.len() implies is_digit(#[trigger] head[i]) by {
            assert(head[i] == text[i]);
        }
        lemma_read_positive(head);
        law_a_number_has_one_form(head, n / 10);
        assert(text =~= dec(n));
    }
}

/// Digits without a leading zero make a positive number.
proof fn lemma_read_positive(text: Seq<char>)
    requires
        text.len() > 0,
        all_digits(text),
        text[0] != '0',
    ensures
        read(text) > 0,
    decreases text.len(),
{
    let head = text.drop_last();
    assert(is_digit(text[text.len() - 1]));
    if text.len() > 1 {
        assert forall|i: int| 0 <= i < head.len() implies is_digit(#[trigger] head[i]) by {
            assert(head[i] == text[i]);
        }
        lemma_read_positive(head);
    } else {
        assert(read(head) == 0);
    }
}

/// An integer reads back as itself.
pub proof fn law_an_integer_reads_back(n: int)
    ensures
        reads_as_int(int_dec(n), n),
{
    reveal_strlit("-");
    if n < 0 {
        law_a_number_reads_back((-n) as nat);
        assert(int_dec(n).drop_first() =~= dec((-n) as nat));
    } else {
        law_a_number_reads_back(n as nat);
    }
}

/// A byte reads back as itself from its two hex digits.
pub proof fn law_a_hex_byte_reads_back(b: u8)
    ensures
        hex_byte(b).len() == 2,
        hex_value(hex_byte(b)[0]) < 16,
        hex_value(hex_byte(b)[1]) < 16,
        16 * hex_value(hex_byte(b)[0]) + hex_value(hex_byte(b)[1]) == b,
{
}

/// Digits hold nothing else.
pub proof fn lemma_digits_lack(text: Seq<char>, mark: char)
    requires
        all_digits(text),
        !is_digit(mark),
    ensures
        lacks(text, mark),
{
}

/// Two texts that lack a character lack it together.
pub proof fn lemma_both_lack(first: Seq<char>, second: Seq<char>, mark: char)
    requires
        lacks(first, mark),
        lacks(second, mark),
    ensures
        lacks(first + second, mark),
{
    let both = first + second;
    assert forall|i: int| 0 <= i < both.len() implies #[trigger] both[i] != mark by {
        if i < first.len() {
            assert(both[i] == first[i]);
        } else {
            assert(both[i] == second[i - first.len()]);
        }
    }
}

/// The powers of ten.
pub proof fn lemma_ten_is_a_power(n: nat)
    ensures
        ten(n) == pow(10, n),
        ten(n) > 0,
    decreases n,
{
    reveal(pow);
    lemma_ten_positive(n);
    if n > 0 {
        lemma_ten_is_a_power((n - 1) as nat);
    }
}

/// A number with leading zeros reads back as itself where it fits.
proof fn lemma_padded_reads_back(n: nat, width: nat)
    requires
        n < ten(width),
    ensures
        dec_padded(n, width).len() == width,
        all_digits(dec_padded(n, width)),
        read(dec_padded(n, width)) == n,
    decreases width,
{
    if width > 0 {
        let text = dec_padded(n, width);
        let head = dec_padded(n / 10, (width - 1) as nat);
        lemma_padded_reads_back(n / 10, (width - 1) as nat);
        assert(text.drop_last() =~= head);
        assert(text.last() == digit((n % 10) as int));
        assert forall|i: int| 0 <= i < text.len() implies is_digit(#[trigger] text[i]) by {
            if i < head.len() {
                assert(text[i] == head[i]);
            }
        }
    }
}

/// How the two parts of a quotient read, before and behind the point.
proof fn lemma_fixed_parts(num: nat, den: nat, places: nat)
    requires
        den > 0,
    ensures
        ({
            let scaled = nearest(num * ten(places), den);
            let text = fixed(num, den, places);
            &&& before(text, '.') == dec(scaled / ten(places))
            &&& after(text, '.') == dec_padded(scaled % ten(places), places)
            &&& reads_as(before(text, '.'), (scaled / ten(places)) as int)
            &&& all_digits(after(text, '.'))
            &&& after(text, '.').len() == places
            &&& read(after(text, '.')) == scaled % ten(places)
        }),
{
    let unit = ten(places);
    let scaled = nearest(num * unit, den);
    lemma_ten_positive(places);
    law_a_number_reads_back(scaled / unit);
    lemma_digits_lack(dec(scaled / unit), '.');
    lemma_mod_bound(scaled as int, unit as int);
    lemma_padded_reads_back(scaled % unit, places);
    reveal_strlit(".");
    assert("."@ =~= seq!['.']);
    lemma_split_at(dec(scaled / unit), '.', dec_padded(scaled % unit, places));
}

/// A quotient is shown as the nearest number with as many places as asked for:
/// read without its point it is a whole number of units of the last place, no
/// further from the quotient than half a unit, and an even number of units
/// where it is that far.
pub proof fn law_a_quotient_is_rounded_to_the_nearest(num: nat, den: nat, places: nat)
    requires
        den > 0,
    ensures
        ({
            let text = fixed(num, den, places);
            let whole = before(text, '.');
            let part = after(text, '.');
            let units = read(whole) * pow(10, places) + read(part);
            let error = 2 * (units * den - num * pow(10, places));
            &&& reads_as(whole, read(whole))
            &&& all_digits(part)
            &&& part.len() == places
            &&& text == whole + seq!['.'] + part
            &&& -den <= error <= den
            &&& error == den || error == -den ==> units % 2 == 0
        }),
{
    let unit = ten(places);
    lemma_ten_is_a_power(places);
    lemma_fixed_parts(num, den, places);
    let product = num * unit;
    let scaled = nearest(product, den);
    let quotient = product / den;
    lemma_fundamental_div_mod(product as int, den as int);
    lemma_mod_bound(product as int, den as int);
    lemma_fundamental_div_mod(scaled as int, unit as int);
    assert((scaled / unit) * unit == unit * (scaled / unit)) by (nonlinear_arith);
    assert(quotient * den == den * quotient && (quotient + 1) * den == den * quotient + den)
        by (nonlinear_arith);
    reveal_strlit(".");
    assert("."@ =~= seq!['.']);
}

/// A signed quotient is a sign and the quotient of the magnitude; zero counts as
/// positive.
pub proof fn law_a_signed_quotient_has_its_sign(num: int, den: nat, places: nat)
    ensures
        num >= 0 ==> signed_fixed(num, den, places) == seq!['+'] + fixed(num as nat, den, places),
        num < 0 ==> signed_fixed(num, den, places) == seq!['-'] + fixed((-num) as nat, den, places),
{
    reveal_strlit("+");
    reveal_strlit("-");
    assert("+"@ =~= seq!['+']);
    assert("-"@ =~= seq!['-']);
}

/// A rounded quotient holds digits and a point alone.
pub proof fn lemma_fixed_lacks(num: nat, den: nat, places: nat, mark: char)
    requires
        den > 0,
        !is_digit(mark),
        mark != '.',
    ensures
        lacks(fixed(num, den, places), mark),
{
    law_a_quotient_is_rounded_to_the_nearest(num, den, places);
    let text = fixed(num, den, places);
    lemma_digits_lack(before(text, '.'), mark);
    lemma_digits_lack(after(text, '.'), mark);
    lemma_both_lack(before(text, '.'), seq!['.'], mark);
    lemma_both_lack(before(text, '.') + seq!['.'], after(text, '.'), mark);
}

/// A decimal number holds digits alone.
pub proof fn lemma_dec_lacks(n: nat, mark: char)
    requires
        !is_digit(mark),
    ensures
        lacks(dec(n), mark),
{
    law_a_number_reads_back(n);
    lemma_digits_lack(dec(n), mark);
}

} // verus!
