//! Numbers as text: decimal digits, digits grouped in threes, and a big
//! number cut down to its last digits.

use crate::natural::{from_u64, less, power, value_of};
use num_bigint::BigUint;
use num_format::{Locale, ToFormattedString};
use vstd::arithmetic::power::pow;
use vstd::prelude::*;
use vstd::string::*;

verus! {

/// The character of the decimal digit `d`.
pub open spec fn digit_char(d: nat) -> char {
    if d == 0 {
        '0'
    } else if d == 1 {
        '1'
    } else if d == 2 {
        '2'
    } else if d == 3 {
        '3'
    } else if d == 4 {
        '4'
    } else if d == 5 {
        '5'
    } else if d == 6 {
        '6'
    } else if d == 7 {
        '7'
    } else if d == 8 {
        '8'
    } else {
        '9'
    }
}

/// The decimal digits of `n`, most significant first, without leading zeros.
pub open spec fn decimal_text(n: nat) -> Seq<char>
    decreases n,
{
    if n < 10 {
        seq![digit_char(n)]
    } else {
        decimal_text(n / 10).push(digit_char(n % 10))
    }
}

/// The character that stands between groups of three digits: the narrow
/// no-break space of French typography.
pub open spec fn separator() -> char {
    '\u{202f}'
}

/// `digits` in groups of three counted from the right, with a separator
/// between neighbouring groups.
pub open spec fn grouped(digits: Seq<char>) -> Seq<char>
    decreases digits.len(),
{
    if digits.len() <= 3 {
        digits
    } else {
        grouped(digits.take(digits.len() - 3)).push(separator()) + digits.skip(digits.len() - 3)
    }
}

/// `BigUint::to_str_radix(10)`: the decimal digits of the number.
#[verifier::external_body]
pub(crate) fn decimal_of(n: &BigUint) -> (r: String)
    ensures
        r@ == decimal_text(value_of(*n)),
{
    n.to_str_radix(10)
}

/// `num_format::ToFormattedString::to_formatted_string` for `BigUint` with
/// `Locale::fr`: the decimal digits in groups of three, with U+202F between
/// the groups.
#[verifier::external_body]
pub(crate) fn grouped_of(n: &BigUint) -> (r: String)
    ensures
        r@ == grouped(decimal_text(value_of(*n))),
{
    n.to_formatted_string(&Locale::fr)
}

/// `num_format::ToFormattedString::to_formatted_string` for `u128` with
/// `Locale::fr`: the decimal digits in groups of three, with U+202F between
/// the groups.
#[verifier::external_body]
pub(crate) fn grouped_count(x: u128) -> (r: String)
    ensures
        r@ == grouped(decimal_text(x as nat)),
{
    x.to_formatted_string(&Locale::fr)
}

/// The one-character string of the decimal digit `d`.
fn digit_str(d: u8) -> (r: &'static str)
    requires
        d < 10,
    ensures
        r@ == seq![digit_char(d as nat)],
{
    proof {
        reveal_strlit("0");
        reveal_strlit("1");
        reveal_strlit("2");
        reveal_strlit("3");
        reveal_strlit("4");
        reveal_strlit("5");
        reveal_strlit("6");
        reveal_strlit("7");
        reveal_strlit("8");
        reveal_strlit("9");
    }
    let r = if d == 0 {
        "0"
    } else if d == 1 {
        "1"
    } else if d == 2 {
        "2"
    } else if d == 3 {
        "3"
    } else if d == 4 {
        "4"
    } else if d == 5 {
        "5"
    } else if d == 6 {
        "6"
    } else if d == 7 {
        "7"
    } else if d == 8 {
        "8"
    } else {
        "9"
    };
    assert(r@ =~= seq![digit_char(d as nat)]);
    r
}

/// The decimal digits of `x`.
pub fn decimal_string(x: u128) -> (r: String)
    ensures
        r@ == decimal_text(x as nat),
    decreases x,
{
    if x < 10 {
        String::from_str(digit_str(x as u8))
    } else {
        let mut text = decimal_string(x / 10);
        text.append(digit_str((x % 10) as u8));
        text
    }
}

/// The text shown in place of a number that is too large to write out.
pub open spec fn sentinel() -> Seq<char> {
    "Too big... representation would take some time we don't have..."@
}

/// The mark that stands before the digits of a number that was cut.
pub open spec fn ellipsis() -> Seq<char> {
    ".."@
}

/// The number written out in full: grouped in threes below `2^169`, plain
/// decimal digits from there on.
pub open spec fn full_text(v: nat) -> Seq<char> {
    if v < pow(2, 169) {
        grouped(decimal_text(v))
    } else {
        decimal_text(v)
    }
}

/// The number as [`crop_biguint`] shows it within `size` characters: the
/// sentinel above `2^250000`; otherwise the full text where it fits, and the
/// ellipsis followed by its last `size` characters where it does not.
pub open spec fn cropped_text(v: nat, size: nat) -> Seq<char> {
    if v > pow(2, 250_000) {
        sentinel()
    } else if full_text(v).len() > size {
        ellipsis() + full_text(v).skip(full_text(v).len() - size)
    } else {
        full_text(v)
    }
}

/// Cutting keeps what fits and marks what it cuts: a text of at most `size`
/// characters comes back whole, and a longer one comes back as two dots and
/// its last `size` characters, `size + 2` characters in all.
pub proof fn lemma_cropped_text(v: nat, size: nat)
    requires
        v <= pow(2, 250_000),
    ensures
        size >= full_text(v).len() ==> cropped_text(v, size) == full_text(v),
        size < full_text(v).len() ==> {
            &&& cropped_text(v, size).len() == size + 2
            &&& cropped_text(v, size).take(2) == ellipsis()
            &&& cropped_text(v, size).skip(2) == full_text(v).skip(full_text(v).len() - size)
        },
{
    reveal_strlit("..");
    if size < full_text(v).len() {
        let tail = full_text(v).skip(full_text(v).len() - size);
        assert((ellipsis() + tail).take(2) =~= ellipsis());
        assert((ellipsis() + tail).skip(2) =~= tail);
    }
}

/// Where no grouping applies, the full text is the decimal digits: for
/// numbers of at most three digits and for numbers from `2^169` on.
pub proof fn lemma_full_text_is_decimal(v: nat)
    requires
        v < 1000 || v >= pow(2, 169),
    ensures
        full_text(v) == decimal_text(v),
{
    if v < pow(2, 169) {
        reveal_with_fuel(decimal_text, 4);
        assert(decimal_text(v).len() <= 3);
    }
}

/// Renders a number within `size` characters.
///
/// A number above `2^250000` is not written out at all: the answer is the
/// sentinel. Any other number is written in full, grouped in threes below
/// `2^169` and as plain digits above; where that text is longer than `size`
/// characters, only its last `size` characters are kept, behind two dots.
pub fn crop_biguint(n: &BigUint, size: usize) -> (r: String)
    ensures
        r@ == cropped_text(value_of(*n), size as nat),
{
    let two = from_u64(2);
    let limit = power(&two, 250_000);
    if less(&limit, n) {
        return String::from_str(
            "Too big... representation would take some time we don't have...",
        );
    }
    let cutoff = power(&two, 169);
    let text = if less(n, &cutoff) {
        grouped_of(n)
    } else {
        decimal_of(n)
    };
    let length = text.as_str().unicode_len();
    if length > size {
        let tail = text.as_str().substring_char(length - size, length);
        let mut cut = String::from_str("..");
        cut.append(tail);
        assert(text@.subrange(length - size, length as int) =~= text@.skip(length - size));
        cut
    } else {
        text
    }
}

} // verus!
