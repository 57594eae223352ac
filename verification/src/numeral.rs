use vstd::prelude::*;
use vstd::slice::slice_subrange;
use crate::text::{drop_commas, strip, stripped, without_commas, Strip};

verus! {

pub open spec fn is_digit(c: char) -> bool {
    '0' <= c <= '9'
}

pub open spec fn digit_of(c: char) -> int {
    c as int - 48
}

pub open spec fn all_digits(s: Seq<char>) -> bool {
    forall|i: int| 0 <= i < s.len() ==> is_digit(#[trigger] s[i])
}

/// The number that a run of digits writes.
pub open spec fn number_of(digits: Seq<char>) -> int
    decreases digits.len(),
{
    if digits.len() == 0 {
        0
    } else {
        number_of(digits.drop_last()) * 10 + digit_of(digits.last())
    }
}

/// `n` times ten to the power `k`, rounded toward zero where `k` is negative.
pub open spec fn shifted(n: int, k: int) -> int
    decreases (if k >= 0 { k } else { -k }),
{
    if k == 0 {
        n
    } else if k > 0 {
        shifted(n, k - 1) * 10
    } else {
        shifted(n, k + 1) / 10
    }
}

/// 1 where `s` begins with a sign, else 0.
pub open spec fn sign_len(s: Seq<char>) -> int {
    if s.len() > 0 && (s[0] == '+' || s[0] == '-') {
        1
    } else {
        0
    }
}

/// Whether `s` begins with a minus sign.
pub open spec fn is_negative(s: Seq<char>) -> bool {
    s.len() > 0 && s[0] == '-'
}

/// Index of the first point at or after `from`, or the length of `s`.
pub open spec fn point_at(s: Seq<char>, from: int) -> int
    decreases s.len() - from,
{
    if from < 0 || from >= s.len() {
        s.len() as int
    } else if s[from] == '.' {
        from
    } else {
        point_at(s, from + 1)
    }
}

/// Index of the first `e` or `E` at or after `from`, or the length of `s`.
pub open spec fn mark_at(s: Seq<char>, from: int) -> int
    decreases s.len() - from,
{
    if from < 0 || from >= s.len() {
        s.len() as int
    } else if s[from] == 'e' || s[from] == 'E' {
        from
    } else {
        mark_at(s, from + 1)
    }
}

/// The digits of a mantissa without its point, and how many of them stand
/// after the point. A mantissa is digits, optionally with one point among,
/// before or after them, and holds at least one digit.
pub open spec fn mantissa_of(m: Seq<char>) -> Option<(Seq<char>, int)> {
    let point = point_at(m, 0);
    let whole = m.subrange(0, point);
    let frac = if point < m.len() {
        m.subrange(point + 1, m.len() as int)
    } else {
        Seq::empty()
    };
    if all_digits(whole) && all_digits(frac) && whole.len() + frac.len() > 0 {
        Some((whole + frac, frac.len() as int))
    } else {
        None
    }
}

/// The number that an exponent writes: an optional sign and at least one
/// digit.
pub open spec fn exponent_of(e: Seq<char>) -> Option<int> {
    let digits = e.subrange(sign_len(e), e.len() as int);
    if digits.len() > 0 && all_digits(digits) {
        Some(if is_negative(e) { -number_of(digits) } else { number_of(digits) })
    } else {
        None
    }
}

/// The value in millionths of a decimal numeral: an optional sign, a
/// mantissa, and optionally `e` or `E` with an exponent. What lies beyond the
/// sixth decimal place of the value is dropped.
pub open spec fn decimal_micros(s: Seq<char>) -> Option<int> {
    let start = sign_len(s);
    let mark = mark_at(s, start);
    let exponent = if mark < s.len() {
        exponent_of(s.subrange(mark + 1, s.len() as int))
    } else {
        Some(0int)
    };
    match (mantissa_of(s.subrange(start, mark)), exponent) {
        (Some((digits, places)), Some(e)) => {
            let size = shifted(number_of(digits), 6 - places + e);
            Some(if is_negative(s) { -size } else { size })
        },
        _ => None,
    }
}

/// A value in millionths as a price holds it: itself where 64 bits hold it.
pub open spec fn price_held(v: Option<int>) -> Option<i64> {
    match v {
        Some(v) => if i64::MIN <= v <= i64::MAX {
            Some(v as i64)
        } else {
            None
        },
        None => None,
    }
}

/// The price that a field holds: white space and then quotes are taken off
/// its ends, its commas are removed, and what is left is read as a decimal
/// numeral. A field that is empty once trimmed or is no numeral holds no
/// price, nor does one whose value in millionths 64 bits cannot hold.
pub open spec fn price_of(field: Seq<char>) -> Option<i64> {
    let t = stripped(stripped(field, Strip::Space), Strip::Quote);
    if t.len() == 0 {
        None
    } else {
        price_held(decimal_micros(without_commas(t)))
    }
}

proof fn lemma_point_at(s: Seq<char>, from: int, p: int)
    requires
        0 <= from <= p <= s.len(),
        forall|k: int| from <= k < p ==> #[trigger] s[k] != '.',
        p == s.len() || s[p] == '.',
    ensures
        point_at(s, from) == p,
    decreases p - from,
{
    if from < p {
        lemma_point_at(s, from + 1, p);
    }
}

proof fn lemma_mark_at(s: Seq<char>, from: int, p: int)
    requires
        0 <= from <= p <= s.len(),
        forall|k: int| from <= k < p ==> #[trigger] s[k] != 'e' && s[k] != 'E',
        p == s.len() || s[p] == 'e' || s[p] == 'E',
    ensures
        mark_at(s, from) == p,
    decreases p - from,
{
    if from < p {
        lemma_mark_at(s, from + 1, p);
    }
}

proof fn lemma_number_nonnegative(digits: Seq<char>)
    requires
        all_digits(digits),
    ensures
        0 <= number_of(digits),
    decreases digits.len(),
{
    if digits.len() > 0 {
        let t = digits.drop_last();
        assert forall|i: int| 0 <= i < t.len() implies is_digit(#[trigger] t[i]) by {
            assert(t[i] == digits[i]);
        }
        lemma_number_nonnegative(t);
        assert(is_digit(digits[digits.len() - 1]));
    }
}

/// A number written with digits only grows when more digits follow.
proof fn lemma_number_grows(digits: Seq<char>, k: int)
    requires
        all_digits(digits),
        0 <= k <= digits.len(),
    ensures
        0 <= number_of(digits.take(k)) <= number_of(digits),
    decreases digits.len() - k,
{
    if k < digits.len() {
        lemma_number_grows(digits, k + 1);
        let now = digits.take(k + 1);
        assert(now.drop_last() == digits.take(k));
        assert(now.last() == digits[k]);
        assert forall|i: int| 0 <= i < digits.take(k).len() implies is_digit(
            #[trigger] digits.take(k)[i],
        ) by {
            assert(digits.take(k)[i] == digits[i]);
        }
        lemma_number_nonnegative(digits.take(k));
        assert(is_digit(digits[k]));
    } else {
        assert(digits.take(k) == digits);
        lemma_number_nonnegative(digits);
    }
}

/// Shifting down by `m` places leaves the number that the digits write
/// without their last `m`.
proof fn lemma_shift_down(digits: Seq<char>, m: int)
    requires
        all_digits(digits),
        0 <= m,
    ensures
        shifted(number_of(digits), -m) == if m >= digits.len() {
            0
        } else {
            number_of(digits.take(digits.len() - m))
        },
    decreases m,
{
    let len = digits.len() as int;
    if m == 0 {
        assert(digits.take(len) == digits);
    } else {
        lemma_shift_down(digits, m - 1);
        let n = number_of(digits);
        assert(shifted(n, -m) == shifted(n, -m + 1) / 10);
        assert(shifted(n, -m + 1) == shifted(n, -(m - 1)));
        if m - 1 < len {
            let longer = digits.take(len - m + 1);
            assert(longer.drop_last() == digits.take(len - m));
            assert(is_digit(digits[len - m]));
            assert(longer.last() == digits[len - m]);
            assert(number_of(longer) == number_of(longer.drop_last()) * 10 + digit_of(
                longer.last(),
            ));
            if m == len {
                assert(digits.take(0).len() == 0);
            }
        }
    }
}

/// Shifting a number that is not negative upward never makes it smaller,
/// and leaves zero at zero.
proof fn lemma_shift_up(n: int, j: int, k: int)
    requires
        0 <= n,
        0 <= j <= k,
    ensures
        n <= shifted(n, j) <= shifted(n, k),
        n == 0 ==> shifted(n, k) == 0,
    decreases k,
{
    if k > 0 {
        if j < k {
            lemma_shift_up(n, j, k - 1);
        } else {
            lemma_shift_up(n, j - 1, k - 1);
        }
    }
}

/// Nineteen places upward take any positive number beyond 64 bits.
proof fn lemma_shift_large(n: int, k: int)
    requires
        1 <= n,
        19 <= k,
    ensures
        shifted(n, k) >= 10_000_000_000_000_000_000,
    decreases k,
{
    if k == 19 {
        reveal_with_fuel(shifted, 20);
    } else {
        lemma_shift_large(n, k - 1);
    }
}

fn digit_value(c: char) -> (r: i128)
    requires
        is_digit(c),
    ensures
        r == digit_of(c),
        0 <= r <= 9,
{
    ((c as u8) - 48) as i128
}

fn is_digit_char(c: char) -> (r: bool)
    ensures
        r == is_digit(c),
{
    '0' <= c && c <= '9'
}

/// The number that the first `upto` digits write, where it is at most
/// 2^63.
fn number_within(digits: &Vec<char>, upto: usize) -> (r: Option<i128>)
    requires
        all_digits(digits@),
        upto <= digits@.len(),
    ensures
        match r {
            Some(v) => v == number_of(digits@.take(upto as int)) && 0 <= v
                <= 0x8000_0000_0000_0000,
            None => number_of(digits@.take(upto as int)) > 0x8000_0000_0000_0000,
        },
{
    let ghost wanted = digits@.take(upto as int);
    let mut acc: i128 = 0;
    let mut i: usize = 0;
    while i < upto
        invariant
            i <= upto <= digits@.len(),
            all_digits(digits@),
            wanted == digits@.take(upto as int),
            acc == number_of(digits@.take(i as int)),
            0 <= acc <= 0x8000_0000_0000_0000,
        decreases upto - i,
    {
        proof {
            let now = digits@.take(i as int + 1);
            assert(now.drop_last() == digits@.take(i as int));
            assert(now.last() == digits@[i as int]);
            assert(is_digit(digits@[i as int]));
        }
        acc = acc * 10 + digit_value(digits[i]);
        i = i + 1;
        if acc > 0x8000_0000_0000_0000 {
            proof {
                assert forall|k: int| 0 <= k < wanted.len() implies is_digit(
                    #[trigger] wanted[k],
                ) by {
                    assert(wanted[k] == digits@[k]);
                }
                lemma_number_grows(wanted, i as int);
                assert(wanted.take(i as int) == digits@.take(i as int));
            }
            return None;
        }
    }
    Some(acc)
}

/// Reads a mantissa into its digits and the count of those after the point.
fn parse_mantissa(m: &[char]) -> (r: Option<(Vec<char>, usize)>)
    ensures
        match r {
            Some((digits, places)) => mantissa_of(m@) == Some((digits@, places as int))
                && all_digits(digits@) && places <= digits@.len(),
            None => mantissa_of(m@) is None,
        },
{
    let n: usize = m.len();
    let mut digits: Vec<char> = Vec::new();
    let mut i: usize = 0;
    while i < n && m[i] != '.'
        invariant
            i <= n,
            n == m@.len(),
            digits@ == m@.subrange(0, i as int),
            all_digits(digits@),
            forall|k: int| 0 <= k < i ==> #[trigger] m@[k] != '.',
        decreases n - i,
    {
        let c: char = m[i];
        if !is_digit_char(c) {
            proof {
                lemma_point_beyond(m@, i as int);
                assert(m@.subrange(0, point_at(m@, 0))[i as int] == c);
            }
            return None;
        }
        digits.push(c);
        i = i + 1;
        assert(digits@ =~= m@.subrange(0, i as int));
    }
    let point: usize = i;
    proof {
        lemma_point_at(m@, 0, point as int);
    }
    let ghost whole = m@.subrange(0, point as int);
    let mut places: usize = 0;
    if point < n {
        let ghost frac = m@.subrange(point as int + 1, n as int);
        i = point + 1;
        assert(digits@ =~= whole + frac.take(0));
        while i < n
            invariant
                point < i <= n,
                n == m@.len(),
                point_at(m@, 0) == point,
                whole == m@.subrange(0, point as int),
                frac == m@.subrange(point as int + 1, n as int),
                places == i - point - 1,
                digits@ == whole + frac.take(places as int),
                all_digits(digits@),
                all_digits(whole),
            decreases n - i,
        {
            let c: char = m[i];
            assert(frac[places as int] == c);
            if !is_digit_char(c) {
                return None;
            }
            digits.push(c);
            places = places + 1;
            i = i + 1;
            assert(digits@ =~= whole + frac.take(places as int));
        }
        proof {
            assert(frac.take(places as int) == frac);
            assert forall|k: int| 0 <= k < frac.len() implies is_digit(#[trigger] frac[k]) by {
                assert(frac[k] == digits@[whole.len() + k]);
            }
        }
    } else {
        assert(digits@ =~= whole + Seq::<char>::empty());
    }
    if digits.len() == 0 {
        return None;
    }
    Some((digits, places))
}

proof fn lemma_point_beyond(s: Seq<char>, j: int)
    requires
        0 <= j < s.len(),
        forall|k: int| 0 <= k <= j ==> #[trigger] s[k] != '.',
    ensures
        j < point_at(s, 0) <= s.len(),
{
    lemma_point_from(s, 0, j);
}

proof fn lemma_point_from(s: Seq<char>, from: int, j: int)
    requires
        0 <= from <= j + 1,
        j < s.len(),
        forall|k: int| from <= k <= j ==> #[trigger] s[k] != '.',
    ensures
        j < point_at(s, from) <= s.len(),
    decreases s.len() - from,
{
    if from < s.len() && s[from] != '.' {
        lemma_point_from(s, from + 1, if j < from + 1 { from } else { j });
    }
}

/// Reads an exponent. A value beyond 10^30 either way comes back as that
/// bound.
fn parse_exponent(e: &[char]) -> (r: Option<i128>)
    ensures
        match exponent_of(e@) {
            Some(v) => r == Some(
                if v > 1_000_000_000_000_000_000_000_000_000_000 {
                    1_000_000_000_000_000_000_000_000_000_000i128
                } else if v < -1_000_000_000_000_000_000_000_000_000_000 {
                    -1_000_000_000_000_000_000_000_000_000_000i128
                } else {
                    v as i128
                },
            ),
            None => r is None,
        },
{
    let n: usize = e.len();
    let negative: bool = n > 0 && e[0] == '-';
    let start: usize = if n > 0 && (e[0] == '+' || e[0] == '-') { 1 } else { 0 };
    if start == n {
        return None;
    }
    let ghost digits = e@.subrange(start as int, n as int);
    let mut acc: i128 = 0;
    let mut i: usize = start;
    while i < n
        invariant
            start <= i <= n,
            n == e@.len(),
            start == sign_len(e@),
            negative == is_negative(e@),
            digits == e@.subrange(start as int, n as int),
            all_digits(digits.take(i - start)),
            0 <= acc <= 1_000_000_000_000_000_000_000_000_000_000,
            acc == if number_of(digits.take(i - start))
                > 1_000_000_000_000_000_000_000_000_000_000 {
                1_000_000_000_000_000_000_000_000_000_000
            } else {
                number_of(digits.take(i - start))
            },
        decreases n - i,
    {
        let c: char = e[i];
        assert(digits[i - start] == c);
        if !is_digit_char(c) {
            return None;
        }
        proof {
            let before = digits.take(i - start);
            let now = digits.take(i - start + 1);
            assert(now.drop_last() == before);
            assert(now.last() == c);
            assert forall|k: int| 0 <= k < now.len() implies is_digit(#[trigger] now[k]) by {
                if k < before.len() {
                    assert(now[k] == before[k]);
                }
            }
            lemma_number_nonnegative(before);
        }
        acc = acc * 10 + digit_value(c);
        if acc > 1_000_000_000_000_000_000_000_000_000_000 {
            acc = 1_000_000_000_000_000_000_000_000_000_000;
        }
        i = i + 1;
    }
    assert(digits.take(n - start) == digits);
    if negative {
        Some(-acc)
    } else {
        Some(acc)
    }
}

/// The size of `digits` shifted by `6 - places + e` places, where it is at
/// most 2^63. `e` is the exponent with values beyond 10^30 held at that
/// bound; `exponent` is the exponent itself.
fn scale(digits: &Vec<char>, places: usize, e: i128, Ghost(exponent): Ghost<int>) -> (r: Option<
    i128,
>)
    requires
        all_digits(digits@),
        places <= digits@.len(),
        e == if exponent > 1_000_000_000_000_000_000_000_000_000_000 {
            1_000_000_000_000_000_000_000_000_000_000
        } else if exponent < -1_000_000_000_000_000_000_000_000_000_000 {
            -1_000_000_000_000_000_000_000_000_000_000
        } else {
            exponent
        },
    ensures
        match r {
            Some(v) => v == shifted(number_of(digits@), 6 - places + exponent) && 0 <= v
                <= 0x8000_0000_0000_0000,
            None => shifted(number_of(digits@), 6 - places + exponent) > 0x8000_0000_0000_0000,
        },
{
    let len: usize = digits.len();
    let k: i128 = 6 - (places as i128) + e;
    let ghost number = number_of(digits@);
    let ghost shift = 6 - places + exponent;
    proof {
        lemma_number_nonnegative(digits@);
        assert(digits@.take(len as int) == digits@);
    }
    if k < 0 {
        proof {
            lemma_shift_down(digits@, -shift);
        }
        if -k >= len as i128 {
            return Some(0);
        }
        let kept: usize = (len as i128 + k) as usize;
        return number_within(digits, kept);
    }
    let mut acc: i128 = match number_within(digits, len) {
        Some(v) => v,
        None => {
            proof {
                lemma_shift_up(number, 0, shift);
            }
            return None;
        },
    };
    if acc == 0 {
        proof {
            lemma_shift_up(number, 0, shift);
        }
        return Some(0);
    }
    if k > 19 {
        proof {
            lemma_shift_large(number, shift);
        }
        return None;
    }
    let mut j: i128 = 0;
    while j < k
        invariant
            0 <= j <= k <= 19,
            k == shift,
            shift == 6 - places + exponent,
            number == number_of(digits@),
            1 <= number,
            acc == shifted(number, j as int),
            0 <= acc <= 0x8000_0000_0000_0000,
        decreases k - j,
    {
        acc = acc * 10;
        j = j + 1;
        assert(acc == shifted(number, j as int));
        if acc > 0x8000_0000_0000_0000 {
            proof {
                lemma_shift_up(number, j as int, shift);
            }
            return None;
        }
    }
    Some(acc)
}

/// Reads a decimal numeral as a price in millionths.
pub fn parse_decimal(s: &[char]) -> (r: Option<i64>)
    ensures
        r == price_held(decimal_micros(s@)),
{
    let n: usize = s.len();
    let negative: bool = n > 0 && s[0] == '-';
    let start: usize = if n > 0 && (s[0] == '+' || s[0] == '-') { 1 } else { 0 };
    let mut mark: usize = start;
    while mark < n && s[mark] != 'e' && s[mark] != 'E'
        invariant
            start <= mark <= n,
            n == s@.len(),
            start == sign_len(s@),
            negative == is_negative(s@),
            forall|k: int| start <= k < mark ==> #[trigger] s@[k] != 'e' && s@[k] != 'E',
        decreases n - mark,
    {
        mark = mark + 1;
    }
    proof {
        lemma_mark_at(s@, start as int, mark as int);
    }
    let (digits, places) = match parse_mantissa(slice_subrange(s, start, mark)) {
        Some(found) => found,
        None => {
            return None;
        },
    };
    let e: i128 = if mark < n {
        match parse_exponent(slice_subrange(s, mark + 1, n)) {
            Some(e) => e,
            None => {
                return None;
            },
        }
    } else {
        0
    };
    let ghost exponent: int = if mark < n {
        exponent_of(s@.subrange(mark as int + 1, n as int))->0
    } else {
        0
    };
    let size: i128 = match scale(&digits, places, e, Ghost(exponent)) {
        Some(v) => v,
        None => {
            return None;
        },
    };
    if negative {
        Some((-size) as i64)
    } else if size > i64::MAX as i128 {
        None
    } else {
        Some(size as i64)
    }
}

/// Reads the price that a field holds.
pub fn parse_price(field: &[char]) -> (r: Option<i64>)
    ensures
        r == price_of(field@),
{
    let raw: &[char] = strip(strip(field, Strip::Space), Strip::Quote);
    if raw.len() == 0 {
        return None;
    }
    let cleaned: Vec<char> = drop_commas(raw);
    parse_decimal(cleaned.as_slice())
}

} // verus!
