//! Decimal numbers as text: reading them into millionths and writing them
//! with three decimal places.

use vstd::prelude::*;
use vstd::slice::slice_subrange;
use vstd::string::*;
use crate::text::{find_byte, position_of};

verus! {

/// Millionths in one unit.
pub const UNIT: u64 = 1_000_000;

/// The whole part of a decimal number must be less than this.
pub const WHOLE_LIMIT: u64 = 1_000_000_000_000;

/// The digit `0`; the other digits follow it in order.
pub const DIGIT_ZERO: u8 = 0x30;

/// The digit `9`.
pub const DIGIT_NINE: u8 = 0x39;

/// The decimal point.
pub const POINT: u8 = 0x2e;

/// The minus sign.
pub const MINUS: u8 = 0x2d;

/// The plus sign.
pub const PLUS: u8 = 0x2b;

/// One of the bytes `0` to `9`.
pub open spec fn is_digit(b: u8) -> bool {
    DIGIT_ZERO <= b <= DIGIT_NINE
}

/// Every byte of `s` is a digit.
pub open spec fn all_digits(s: Seq<u8>) -> bool {
    forall|i: int| 0 <= i < s.len() ==> is_digit(#[trigger] s[i])
}

/// The number that the digits `s` write in base ten; 0 for no digits.
pub open spec fn digits_value(s: Seq<u8>) -> int
    decreases s.len(),
{
    if s.len() == 0 {
        0
    } else {
        digits_value(s.drop_last()) * 10 + (s.last() - DIGIT_ZERO)
    }
}

/// The digit at decimal place `i` of the fraction digits `frac`, counted
/// from 0; 0 where the digits end before that place.
pub open spec fn place_digit(frac: Seq<u8>, i: int) -> int {
    if 0 <= i < frac.len() {
        frac[i] - DIGIT_ZERO
    } else {
        0
    }
}

/// The millionths that the fraction digits `frac` stand for. Digits after
/// the sixth place are not counted.
pub open spec fn fraction_millionths(frac: Seq<u8>) -> int {
    place_digit(frac, 0) * 100_000 + place_digit(frac, 1) * 10_000 + place_digit(frac, 2) * 1_000
        + place_digit(frac, 3) * 100 + place_digit(frac, 4) * 10 + place_digit(frac, 5)
}

/// Whether `s` starts with a plus or a minus sign.
pub open spec fn has_sign(s: Seq<u8>) -> bool {
    s.len() > 0 && (s[0] == MINUS || s[0] == PLUS)
}

/// The digits of `s` in front of the decimal point.
pub open spec fn whole_digits(s: Seq<u8>) -> Seq<u8> {
    let body = if has_sign(s) {
        s.subrange(1, s.len() as int)
    } else {
        s
    };
    body.subrange(0, position_of(body, POINT, 0))
}

/// The digits of `s` behind the decimal point; none where there is no point.
pub open spec fn fraction_digits(s: Seq<u8>) -> Seq<u8> {
    let body = if has_sign(s) {
        s.subrange(1, s.len() as int)
    } else {
        s
    };
    let point = position_of(body, POINT, 0);
    if point < body.len() {
        body.subrange(point + 1, body.len() as int)
    } else {
        Seq::empty()
    }
}

/// Whether `s` writes a decimal number: an optional sign, digits, and
/// optionally a point and more digits, with at least one digit in all and a
/// whole part below [`WHOLE_LIMIT`].
pub open spec fn is_decimal(s: Seq<u8>) -> bool {
    &&& all_digits(whole_digits(s))
    &&& all_digits(fraction_digits(s))
    &&& whole_digits(s).len() + fraction_digits(s).len() >= 1
    &&& digits_value(whole_digits(s)) < WHOLE_LIMIT
}

/// The number that `s` writes, in millionths, where it writes one.
pub open spec fn decimal_value(s: Seq<u8>) -> Option<int> {
    if is_decimal(s) {
        let magnitude = digits_value(whole_digits(s)) * UNIT + fraction_millionths(
            fraction_digits(s),
        );
        if s[0] == MINUS {
            Some(-magnitude)
        } else {
            Some(magnitude)
        }
    } else {
        None
    }
}

/// Digits write a number that is not negative and not less than the number
/// that the first `k` of them write.
pub proof fn lemma_digits_value_grows(s: Seq<u8>, k: int)
    requires
        all_digits(s),
        0 <= k <= s.len(),
    ensures
        0 <= digits_value(s.take(k)) <= digits_value(s),
    decreases s.len(),
{
    if k == s.len() {
        assert(s.take(k) =~= s);
        if s.len() > 0 {
            assert(all_digits(s.drop_last())) by {
                assert forall|i: int| 0 <= i < s.drop_last().len() implies is_digit(
                    #[trigger] s.drop_last()[i],
                ) by {
                    assert(s.drop_last()[i] == s[i]);
                }
            }
            lemma_digits_value_grows(s.drop_last(), k - 1);
            assert(s.drop_last().take(k - 1) =~= s.drop_last());
            assert(is_digit(s[s.len() - 1]));
        }
    } else {
        let front = s.drop_last();
        assert(all_digits(front)) by {
            assert forall|i: int| 0 <= i < front.len() implies is_digit(#[trigger] front[i]) by {
                assert(front[i] == s[i]);
            }
        }
        lemma_digits_value_grows(front, k);
        assert(front.take(k) =~= s.take(k));
        assert(is_digit(s[s.len() - 1]));
    }
}

/// Every decimal place of a run of digits holds a digit from 0 to 9.
pub proof fn lemma_place_digit_range(frac: Seq<u8>, i: int)
    requires
        all_digits(frac),
    ensures
        0 <= place_digit(frac, i) <= 9,
{
    if 0 <= i < frac.len() {
        assert(is_digit(frac[i]));
    }
}

/// A decimal number lies strictly between minus and plus a million million
/// units.
pub proof fn lemma_decimal_value_bound(s: Seq<u8>)
    ensures
        decimal_value(s) matches Some(v) ==> -1_000_000_000_000_000_000 < v
            < 1_000_000_000_000_000_000,
{
    if is_decimal(s) {
        let whole = whole_digits(s);
        let frac = fraction_digits(s);
        lemma_digits_value_grows(whole, 0);
        lemma_place_digit_range(frac, 0);
        lemma_place_digit_range(frac, 1);
        lemma_place_digit_range(frac, 2);
        lemma_place_digit_range(frac, 3);
        lemma_place_digit_range(frac, 4);
        lemma_place_digit_range(frac, 5);
    }
}

/// The number that the digits `s` write, where all of `s` are digits and the
/// number is below the limit for a whole part.
fn read_whole(s: &[u8]) -> (value: Option<u64>)
    ensures
        value.is_some() == (all_digits(s@) && digits_value(s@) < WHOLE_LIMIT),
        value matches Some(v) ==> v == digits_value(s@),
{
    let n: usize = s.len();
    let mut acc: u64 = 0;
    let mut i: usize = 0;
    while i < n
        invariant
            i <= n,
            n == s@.len(),
            all_digits(s@.take(i as int)),
            acc == digits_value(s@.take(i as int)),
            acc < WHOLE_LIMIT,
        decreases n - i,
    {
        let b: u8 = s[i];
        if b < DIGIT_ZERO || b > DIGIT_NINE {
            assert(!is_digit(s@[i as int]));
            return None;
        }
        let ghost next = s@.take(i + 1);
        proof {
            assert(next.drop_last() =~= s@.take(i as int));
            assert(next.last() == b);
            assert forall|j: int| 0 <= j < next.len() implies is_digit(#[trigger] next[j]) by {
                if j < i {
                    assert(s@.take(i as int)[j] == next[j]);
                }
            }
        }
        let grown: u64 = acc * 10 + (b - DIGIT_ZERO) as u64;
        if grown >= WHOLE_LIMIT {
            proof {
                if all_digits(s@) {
                    lemma_digits_value_grows(s@, i + 1);
                }
            }
            return None;
        }
        acc = grown;
        i += 1;
    }
    assert(s@.take(n as int) =~= s@);
    Some(acc)
}

/// The digit at decimal place `i` of `frac`, or 0 behind its end.
fn read_place(frac: &[u8], i: usize) -> (digit: u64)
    requires
        all_digits(frac@),
    ensures
        digit == place_digit(frac@, i as int),
        digit <= 9,
{
    if i < frac.len() {
        assert(is_digit(frac@[i as int]));
        (frac[i] - DIGIT_ZERO) as u64
    } else {
        0
    }
}

/// The millionths that the fraction digits `frac` stand for, where all of
/// `frac` are digits.
fn read_fraction(frac: &[u8]) -> (value: Option<u64>)
    ensures
        value.is_some() == all_digits(frac@),
        value matches Some(v) ==> v == fraction_millionths(frac@) && v < UNIT,
{
    let n: usize = frac.len();
    let mut i: usize = 0;
    while i < n
        invariant
            i <= n,
            n == frac@.len(),
            forall|j: int| 0 <= j < i ==> is_digit(#[trigger] frac@[j]),
        decreases n - i,
    {
        if frac[i] < DIGIT_ZERO || frac[i] > DIGIT_NINE {
            assert(!is_digit(frac@[i as int]));
            return None;
        }
        i += 1;
    }
    Some(
        read_place(frac, 0) * 100_000 + read_place(frac, 1) * 10_000 + read_place(frac, 2) * 1_000
            + read_place(frac, 3) * 100 + read_place(frac, 4) * 10 + read_place(frac, 5),
    )
}

/// Reads the decimal number that `s` writes, in millionths: an optional
/// sign, digits, and optionally a point and more digits. There must be at
/// least one digit, and the whole part must be below a million million.
/// Digits after the sixth decimal place are not counted.
pub fn parse_decimal(s: &[u8]) -> (value: Option<i64>)
    ensures
        value.is_some() == decimal_value(s@).is_some(),
        value matches Some(v) ==> decimal_value(s@) == Some(v as int),
{
    let n: usize = s.len();
    let signed: bool = n > 0 && (s[0] == MINUS || s[0] == PLUS);
    let negative: bool = n > 0 && s[0] == MINUS;
    let body: &[u8] = if signed {
        slice_subrange(s, 1, n)
    } else {
        s
    };
    let point: usize = find_byte(body, POINT, 0);
    let whole: &[u8] = slice_subrange(body, 0, point);
    let frac: &[u8] = if point < body.len() {
        slice_subrange(body, point + 1, body.len())
    } else {
        slice_subrange(body, point, point)
    };
    assert(whole@ == whole_digits(s@));
    assert(frac@ =~= fraction_digits(s@));
    if whole.len() == 0 && frac.len() == 0 {
        return None;
    }
    let units: u64 = match read_whole(whole) {
        Some(units) => units,
        None => {
            return None;
        },
    };
    let millionths: u64 = match read_fraction(frac) {
        Some(millionths) => millionths,
        None => {
            return None;
        },
    };
    let magnitude: u64 = units * UNIT + millionths;
    if negative {
        Some(-(magnitude as i64))
    } else {
        Some(magnitude as i64)
    }
}

/// The character that writes the digit `d`.
pub open spec fn digit_char(d: int) -> char {
    if d == 0 {
        '0'
    } else if d == 1 {
        '1'
    } else if d == 2 {
        '2'
    } else if d == 3 {
        '3'
    } else if d == 4 {
        '4'
    } else if d == 5 {
        '5'
    } else if d == 6 {
        '6'
    } else if d == 7 {
        '7'
    } else if d == 8 {
        '8'
    } else {
        '9'
    }
}

/// The digits of `n` in base ten, without leading zeros; `0` for 0.
pub open spec fn decimal_digits(n: nat) -> Seq<char>
    decreases n,
{
    if n < 10 {
        seq![digit_char(n as int)]
    } else {
        decimal_digits(n / 10).push(digit_char((n % 10) as int))
    }
}

/// `millionths` rounded to thousandths, a tie going to the even
/// thousandth.
pub open spec fn rounded_thousandths(millionths: nat) -> nat {
    let down = millionths / 1000;
    let rest = millionths % 1000;
    if rest > 500 || (rest == 500 && down % 2 == 1) {
        down + 1
    } else {
        down
    }
}

/// A number of thousandths written with a point and three decimal places.
pub open spec fn thousandths_text(thousandths: nat) -> Seq<char> {
    decimal_digits(thousandths / 1000) + seq![
        '.',
        digit_char((thousandths / 100 % 10) as int),
        digit_char((thousandths / 10 % 10) as int),
        digit_char((thousandths % 10) as int),
    ]
}

/// A number of millionths written with three decimal places: its magnitude
/// rounded to thousandths, behind a minus sign where the number is negative.
pub open spec fn fixed3_text(millionths: int) -> Seq<char> {
    if millionths < 0 {
        seq!['-'] + thousandths_text(rounded_thousandths((-millionths) as nat))
    } else {
        thousandths_text(rounded_thousandths(millionths as nat))
    }
}

fn digit_str(d: u8) -> (text: &'static str)
    requires
        d <= 9,
    ensures
        text@ == seq![digit_char(d as int)],
{
    proof {
        reveal_strlit("0");
        reveal_strlit("1");
        reveal_strlit("2");
        reveal_strlit("3");
        reveal_strlit("4");
        reveal_strlit("5");
        reveal_strlit("6");
        reveal_strlit("7");
        reveal_strlit("8");
        reveal_strlit("9");
    }
    let text: &'static str = if d == 0 {
        "0"
    } else if d == 1 {
        "1"
    } else if d == 2 {
        "2"
    } else if d == 3 {
        "3"
    } else if d == 4 {
        "4"
    } else if d == 5 {
        "5"
    } else if d == 6 {
        "6"
    } else if d == 7 {
        "7"
    } else if d == 8 {
        "8"
    } else {
        "9"
    };
    assert(text@ =~= seq![digit_char(d as int)]);
    text
}

/// Appends the digits of `n` in base ten to `out`.
fn push_digits(out: &mut String, n: u128)
    ensures
        final(out)@ == old(out)@ + decimal_digits(n as nat),
    decreases n,
{
    if n >= 10 {
        push_digits(out, n / 10);
    }
    out.append(digit_str((n % 10) as u8));
    assert(final(out)@ =~= old(out)@ + decimal_digits(n as nat));
}

/// Appends `millionths`, written with three decimal places, to `out`.
pub fn push_fixed3(out: &mut String, millionths: i128)
    ensures
        final(out)@ == old(out)@ + fixed3_text(millionths as int),
{
    let negative: bool = millionths < 0;
    let magnitude: u128 = if negative {
        (-(millionths + 1)) as u128 + 1
    } else {
        millionths as u128
    };
    let down: u128 = magnitude / 1000;
    let rest: u128 = magnitude % 1000;
    let thousandths: u128 = if rest > 500 || (rest == 500 && down % 2 == 1) {
        down + 1
    } else {
        down
    };
    assert(thousandths == rounded_thousandths(magnitude as nat));
    if negative {
        proof {
            reveal_strlit("-");
        }
        out.append("-");
    }
    let ghost signed = out@;
    push_digits(out, thousandths / 1000);
    proof {
        reveal_strlit(".");
    }
    out.append(".");
    out.append(digit_str((thousandths / 100 % 10) as u8));
    out.append(digit_str((thousandths / 10 % 10) as u8));
    out.append(digit_str((thousandths % 10) as u8));
    assert(out@ =~= signed + thousandths_text(thousandths as nat));
    assert(final(out)@ =~= old(out)@ + fixed3_text(millionths as int));
}

/// `millionths` written with three decimal places.
pub fn format_fixed3(millionths: i128) -> (text: String)
    ensures
        text@ == fixed3_text(millionths as int),
{
    let mut text = String::new();
    push_fixed3(&mut text, millionths);
    text
}

} // verus!
