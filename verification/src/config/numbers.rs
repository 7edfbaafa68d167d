//! Fixed-point numbers in text: a number is held in whole thousandths.
use vstd::prelude::*;
use crate::text::{
    all_digits, ascii_lowered, char_is_digit, chars_of, decimal, decimal_int, digits_value, integer,
    is_digit, number, padded_number, same, string_of_range, to_ascii_lowercase, zero_padded,
};
use crate::wm::geometry::{fit, fit_i64};

verus! {

pub open spec fn magnitude(v: int) -> int {
    if v < 0 {
        -v
    } else {
        v
    }
}

/// `a` divided by `unit`, rounded to the nearest whole number; a tie goes to
/// the even one.
pub open spec fn rounded(a: int, unit: int) -> int {
    let q = a / unit;
    let rest = a % unit;
    if 2 * rest > unit || (2 * rest == unit && q % 2 == 1) {
        q + 1
    } else {
        q
    }
}

fn round_div(a: u64, unit: u64) -> (r: u64)
    requires
        2 <= unit <= 1000,
    ensures
        r == rounded(a as int, unit as int),
{
    let q: u64 = a / unit;
    let rest: u64 = a % unit;
    assert(q < u64::MAX) by (nonlinear_arith)
        requires
            q == a / unit,
            unit >= 2,
            a <= u64::MAX,
    ;
    if 2 * rest > unit || (2 * rest == unit && q % 2 == 1) {
        q + 1
    } else {
        q
    }
}

fn magnitude_of(v: i64) -> (r: u64)
    ensures
        r == magnitude(v as int),
{
    if v < 0 {
        (-(v as i128)) as u64
    } else {
        v as u64
    }
}

/// A number as it is written to the configuration: whole if it is within a
/// hundredth of the whole number towards zero, else with two decimals.
pub open spec fn number_text(v: int) -> Seq<char> {
    let a = magnitude(v);
    if a % 1000 < 10 {
        decimal_int(if v < 0 { -(a / 1000) } else { a / 1000 })
    } else {
        let h = rounded(a, 10);
        (if v < 0 { seq!['-'] } else { seq![] }) + decimal((h / 100) as nat) + seq!['.']
            + zero_padded(decimal((h % 100) as nat), 2)
    }
}

/// Writes a number to the configuration.
pub fn lua_number(v: i64) -> (r: String)
    ensures
        r@ == number_text(v as int),
{
    let a: u64 = magnitude_of(v);
    if a % 1000 < 10 {
        let whole: i128 = (a / 1000) as i128;
        integer(if v < 0 { -whole } else { whole })
    } else {
        let h: u64 = round_div(a, 10);
        let mut out = String::new();
        if v < 0 {
            out.push('-');
        }
        out.push_str(number(h / 100).as_str());
        out.push('.');
        out.push_str(padded_number(h % 100, 2).as_str());
        assert(out@ =~= number_text(v as int));
        out
    }
}

/// A number without decimals.
pub open spec fn whole_text(v: int) -> Seq<char> {
    (if v < 0 { seq!['-'] } else { seq![] }) + decimal(rounded(magnitude(v), 1000) as nat)
}

/// Writes a number without decimals.
pub fn whole_number(v: i64) -> (r: String)
    ensures
        r@ == whole_text(v as int),
{
    let mut out = String::new();
    if v < 0 {
        out.push('-');
    }
    out.push_str(number(round_div(magnitude_of(v), 1000)).as_str());
    assert(out@ =~= whole_text(v as int));
    out
}

/// Ten to the power of `n`.
pub open spec fn ten_to(n: nat) -> nat
    decreases n,
{
    if n == 0 {
        1
    } else {
        10 * ten_to((n - 1) as nat)
    }
}

/// The number that digits stand for with the decimal point behind the first
/// `point` of them, without what follows the point.
pub open spec fn pointed_value(digits: Seq<char>, point: int) -> nat {
    if point <= 0 {
        0
    } else if point <= digits.len() {
        digits_value(digits.take(point))
    } else {
        digits_value(digits) * ten_to((point - digits.len()) as nat)
    }
}

/// Exponents from here on count as this one.
pub const EXPONENT_CAP: i128 = 1_000_000_000_000_000_000_000_000_000_000;

/// The exponent that digits stand for.
pub open spec fn capped_exponent(digits: Seq<char>) -> int {
    if digits_value(digits) < EXPONENT_CAP {
        digits_value(digits) as int
    } else {
        EXPONENT_CAP as int
    }
}

pub open spec fn is_exponent_mark(c: char) -> bool {
    c == 'e' || c == 'E'
}

/// The parts of a decimal number without sign: digits, optionally a point and
/// more digits, optionally an exponent.
pub struct DecimalParts {
    pub whole: Seq<char>,
    pub fraction: Seq<char>,
    pub exponent: int,
}

/// How many digits a text starts with.
pub open spec fn digit_run(s: Seq<char>) -> nat
    decreases s.len(),
{
    if s.len() > 0 && is_digit(s[0]) {
        1 + digit_run(s.drop_first())
    } else {
        0
    }
}

/// The exponent part of a number: nothing, or a mark, an optional sign and
/// digits.
pub open spec fn exponent_of(s: Seq<char>) -> Option<int> {
    if s.len() == 0 {
        Some(0)
    } else if !is_exponent_mark(s[0]) {
        None
    } else {
        let rest = s.drop_first();
        let signed = rest.len() > 0 && (rest[0] == '+' || rest[0] == '-');
        let digits = if signed { rest.drop_first() } else { rest };
        if digits.len() > 0 && all_digits(digits) {
            Some(
                if signed && rest[0] == '-' {
                    -capped_exponent(digits)
                } else {
                    capped_exponent(digits)
                },
            )
        } else {
            None
        }
    }
}

/// The parts of an unsigned decimal number.
pub open spec fn decimal_parts(s: Seq<char>) -> Option<DecimalParts> {
    let n = digit_run(s) as int;
    let whole = s.take(n);
    let rest = s.skip(n);
    let pointed = rest.len() > 0 && rest[0] == '.';
    let after = if pointed { rest.drop_first() } else { rest };
    let m = if pointed { digit_run(after) as int } else { 0 };
    let fraction = after.take(m);
    let exponent = exponent_of(after.skip(m));
    if n + m > 0 && exponent is Some {
        Some(DecimalParts { whole, fraction, exponent: exponent->0 })
    } else {
        None
    }
}

/// The thousandths that a number in text stands for, cut off towards zero. A
/// value out of range, `inf` and `infinity` give the nearest end of the range.
pub open spec fn thousandths(s: Seq<char>) -> Option<i64> {
    let signed = s.len() > 0 && (s[0] == '+' || s[0] == '-');
    let minus = signed && s[0] == '-';
    let rest = if signed { s.drop_first() } else { s };
    let lower = ascii_lowered(rest);
    if lower == "inf"@ || lower == "infinity"@ {
        Some(if minus { i64::MIN } else { i64::MAX })
    } else {
        match decimal_parts(rest) {
            None => None,
            Some(p) => {
                let v = pointed_value(p.whole + p.fraction, p.whole.len() + p.exponent + 3);
                Some(fit(if minus { -(v as int) } else { v as int }))
            },
        }
    }
}

/// The digits at the start of a text from `from` on.
fn run_of_digits(v: &Vec<char>, from: usize) -> (r: usize)
    requires
        from <= v@.len(),
    ensures
        from <= r <= v@.len(),
        r - from == digit_run(v@.skip(from as int)),
        forall|i: int| from <= i < r ==> is_digit(#[trigger] v@[i]),
{
    let mut i: usize = from;
    while i < v.len() && char_is_digit(v[i])
        invariant
            from <= i <= v@.len(),
            digit_run(v@.skip(from as int)) == (i - from) + digit_run(v@.skip(i as int)),
            forall|k: int| from <= k < i ==> is_digit(#[trigger] v@[k]),
        decreases v.len() - i,
    {
        assert(v@.skip(i as int).drop_first() =~= v@.skip(i + 1));
        i = i + 1;
    }
    i
}

/// Reads the exponent part from `from` on.
fn read_exponent(v: &Vec<char>, from: usize) -> (r: Option<i128>)
    requires
        from <= v@.len(),
    ensures
        match r {
            Some(e) => exponent_of(v@.skip(from as int)) == Some(e as int) && -EXPONENT_CAP <= e
                <= EXPONENT_CAP,
            None => exponent_of(v@.skip(from as int)) is None,
        },
{
    let ghost s = v@.skip(from as int);
    let n: usize = v.len();
    if from == n {
        return Some(0);
    }
    if v[from] != 'e' && v[from] != 'E' {
        return None;
    }
    let rest: usize = from + 1;
    assert(s.drop_first() =~= v@.skip(rest as int));
    let signed: bool = rest < n && (v[rest] == '+' || v[rest] == '-');
    let start: usize = if signed {
        rest + 1
    } else {
        rest
    };
    let ghost digits = v@.skip(start as int);
    assert(signed ==> s.drop_first().drop_first() =~= digits);
    if start == n {
        return None;
    }
    let mut value: i128 = 0;
    let mut i: usize = start;
    while i < n
        invariant
            n == v@.len(),
            start <= i <= n,
            digits == v@.skip(start as int),
            all_digits(digits.take(i - start)),
            value == capped_exponent(digits.take(i - start)),
            0 <= value <= EXPONENT_CAP,
            from < n,
            is_exponent_mark(v@[from as int]),
            s == v@.skip(from as int),
            s.drop_first() == v@.skip(rest as int),
            rest == from + 1,
            signed == (rest < n && (v@[rest as int] == '+' || v@[rest as int] == '-')),
            signed ==> start == rest + 1 && s.drop_first().drop_first() == digits,
            !signed ==> start == rest,
            start < n,
        decreases n - i,
    {
        let c: char = v[i];
        let ghost k = i - start;
        assert(digits[k] == c);
        if !char_is_digit(c) {
            assert(!all_digits(digits));
            return None;
        }
        assert(digits.take(k + 1).drop_last() =~= digits.take(k));
        let next: i128 = value * 10 + (c as u32 - 48) as i128;
        assert(all_digits(digits.take(k + 1))) by {
            assert forall|j: int| 0 <= j < k + 1 implies is_digit(
                #[trigger] digits.take(k + 1)[j],
            ) by {
                if j < k {
                    assert(digits.take(k)[j] == digits.take(k + 1)[j]);
                }
            }
        }
        value = if next < EXPONENT_CAP {
            next
        } else {
            EXPONENT_CAP
        };
        i = i + 1;
    }
    assert(digits.take(digits.len() as int) =~= digits);
    if signed && v[rest] == '-' {
        Some(-value)
    } else {
        Some(value)
    }
}

/// Beyond every value that fits.
pub const BEYOND: u128 = 100_000_000_000_000_000_000;

proof fn lemma_pointed_more(digits: Seq<char>, i: int, point: int)
    requires
        0 <= i <= point,
        all_digits(digits),
    ensures
        pointed_value(digits, i) <= pointed_value(digits, point),
    decreases point - i,
{
    if i < point {
        lemma_pointed_more(digits, i + 1, point);
        lemma_pointed_step(digits, i);
        if i < digits.len() {
            assert(is_digit(digits[i]));
        }
    }
}

/// Moving the point one digit on multiplies by ten and adds the digit.
proof fn lemma_pointed_step(digits: Seq<char>, i: int)
    requires
        0 <= i,
    ensures
        pointed_value(digits, i + 1) == pointed_value(digits, i) * 10 + (if i < digits.len() {
            (digits[i] as u32 - 48) as nat
        } else {
            0
        }),
{
    let n = digits.len() as int;
    if i < n {
        let next = digits.take(i + 1);
        assert(next.drop_last() =~= digits.take(i));
        assert(next.last() == digits[i]);
        assert(digits_value(next) == digits_value(digits.take(i)) * 10 + (digits[i] as u32
            - 48) as nat);
        if i == 0 {
            assert(digits.take(0) =~= seq![]);
            assert(digits_value(digits.take(0)) == 0);
        }
    } else {
        assert(digits.take(n) =~= digits);
        let v = digits_value(digits);
        let k = (i - n) as nat;
        let t = ten_to(k);
        assert(ten_to((i + 1 - n) as nat) == 10 * t);
        assert(pointed_value(digits, i + 1) == v * (10 * t));
        assert(v * (10 * t) == (v * t) * 10) by (nonlinear_arith);
        if i == 0 {
            assert(digits =~= seq![]);
            assert(v * t == 0) by (nonlinear_arith)
                requires
                    v == 0,
            ;
        } else if i == n {
            assert(t == 1);
            assert(v * t == v) by (nonlinear_arith)
                requires
                    t == 1,
            ;
        }
    }
}

/// Computes `pointed_value`, up to a bound beyond which nothing fits.
fn value_at_point(digits: &Vec<char>, point: i128) -> (r: u128)
    requires
        all_digits(digits@),
    ensures
        pointed_value(digits@, point as int) <= BEYOND ==> r == pointed_value(
            digits@,
            point as int,
        ),
        pointed_value(digits@, point as int) > BEYOND ==> r > BEYOND,
{
    if point <= 0 {
        return 0;
    }
    let mut value: u128 = 0;
    let mut i: i128 = 0;
    let n: usize = digits.len();
    proof {
        assert(pointed_value(digits@, 0) == 0);
    }
    while i < point
        invariant
            n == digits@.len(),
            all_digits(digits@),
            0 <= i <= point,
            value == pointed_value(digits@, i as int),
            value <= BEYOND,
        decreases point - i,
    {
        proof {
            lemma_pointed_step(digits@, i as int);
            lemma_pointed_more(digits@, i + 1, point as int);
        }
        let mut d: u128 = 0;
        if i < n as i128 {
            let k: usize = i as usize;
            assert(is_digit(digits@[k as int]));
            d = (digits[k] as u32 - 48) as u128;
        } else if value == 0 {
            // Only zeros follow.
            proof {
                lemma_pointed_zero(digits@, i as int, point as int);
            }
            return 0;
        }
        let next: u128 = value * 10 + d;
        assert(next == pointed_value(digits@, i + 1));
        if next > BEYOND {
            return next;
        }
        value = next;
        i = i + 1;
    }
    value
}

proof fn lemma_pointed_zero(digits: Seq<char>, i: int, point: int)
    requires
        digits.len() <= i <= point,
        pointed_value(digits, i) == 0,
    ensures
        pointed_value(digits, point) == 0,
    decreases point - i,
{
    if i < point {
        lemma_pointed_step(digits, i);
        lemma_pointed_zero(digits, i + 1, point);
    }
}

/// Where the parts of an unsigned number are.
struct PartBounds {
    whole_end: usize,
    fraction_start: usize,
    fraction_end: usize,
    exponent: i128,
}

/// Finds the parts of the unsigned number that starts at `from`.
fn find_parts(v: &Vec<char>, from: usize) -> (r: Option<PartBounds>)
    requires
        from <= v@.len(),
    ensures
        match r {
            None => decimal_parts(v@.skip(from as int)) is None,
            Some(b) => {
                &&& from <= b.whole_end <= b.fraction_start <= b.fraction_end <= v@.len()
                &&& forall|i: int| from <= i < b.whole_end ==> is_digit(#[trigger] v@[i])
                &&& forall|i: int|
                    b.fraction_start <= i < b.fraction_end ==> is_digit(#[trigger] v@[i])
                &&& -EXPONENT_CAP <= b.exponent <= EXPONENT_CAP
                &&& match decimal_parts(v@.skip(from as int)) {
                    None => false,
                    Some(p) => {
                        &&& p.whole == v@.subrange(from as int, b.whole_end as int)
                        &&& p.fraction == v@.subrange(
                            b.fraction_start as int,
                            b.fraction_end as int,
                        )
                        &&& p.exponent == b.exponent
                    },
                }
            },
        },
{
    let n: usize = v.len();
    let ghost rest = v@.skip(from as int);
    let whole_end: usize = run_of_digits(v, from);
    let ghost count = digit_run(rest) as int;
    assert(rest.skip(count) =~= v@.skip(whole_end as int));
    assert(rest.take(count) =~= v@.subrange(from as int, whole_end as int));
    let pointed: bool = whole_end < n && v[whole_end] == '.';
    let after: usize = if pointed {
        whole_end + 1
    } else {
        whole_end
    };
    let ghost tail = v@.skip(after as int);
    assert(pointed ==> rest.skip(count).drop_first() =~= tail);
    let fraction_end: usize = if pointed {
        run_of_digits(v, after)
    } else {
        after
    };
    let ghost m = fraction_end - after;
    assert(tail.skip(m) =~= v@.skip(fraction_end as int));
    assert(tail.take(m) =~= v@.subrange(after as int, fraction_end as int));
    match read_exponent(v, fraction_end) {
        Some(exponent) => {
            if whole_end == from && fraction_end == after {
                None
            } else {
                Some(PartBounds { whole_end, fraction_start: after, fraction_end, exponent })
            }
        },
        None => None,
    }
}

/// The characters of two ranges, one behind the other.
fn two_ranges(v: &Vec<char>, a: usize, b: usize, c: usize, d: usize) -> (r: Vec<char>)
    requires
        a <= b <= c <= d <= v@.len(),
    ensures
        r@ == v@.subrange(a as int, b as int) + v@.subrange(c as int, d as int),
{
    let mut r: Vec<char> = Vec::new();
    let mut i: usize = a;
    while i < b
        invariant
            a <= i <= b <= v@.len(),
            r@ == v@.subrange(a as int, i as int),
        decreases b - i,
    {
        r.push(v[i]);
        i = i + 1;
        assert(r@ =~= v@.subrange(a as int, i as int));
    }
    let mut j: usize = c;
    assert(r@ =~= v@.subrange(a as int, b as int) + v@.subrange(c as int, c as int));
    while j < d
        invariant
            a <= b <= c <= j <= d <= v@.len(),
            r@ == v@.subrange(a as int, b as int) + v@.subrange(c as int, j as int),
        decreases d - j,
    {
        r.push(v[j]);
        j = j + 1;
        assert(r@ =~= v@.subrange(a as int, b as int) + v@.subrange(c as int, j as int));
    }
    r
}

/// Reads the unsigned number that starts at `from` into thousandths.
fn parse_unsigned(v: &Vec<char>, from: usize) -> (r: Option<u128>)
    requires
        from <= v@.len(),
    ensures
        match decimal_parts(v@.skip(from as int)) {
            None => r is None,
            Some(p) => {
                let value = pointed_value(p.whole + p.fraction, p.whole.len() + p.exponent + 3);
                match r {
                    None => false,
                    Some(x) => {
                        &&& value <= BEYOND ==> x == value
                        &&& value > BEYOND ==> x > BEYOND
                    },
                }
            },
        },
{
    match find_parts(v, from) {
        None => None,
        Some(b) => {
            let digits = two_ranges(v, from, b.whole_end, b.fraction_start, b.fraction_end);
            let count: usize = b.whole_end - from;
            assert forall|k: int| 0 <= k < digits@.len() implies is_digit(
                #[trigger] digits@[k],
            ) by {
                if k < count {
                    assert(digits@[k] == v@[from + k]);
                } else {
                    assert(digits@[k] == v@[b.fraction_start + (k - count)]);
                }
            }
            let point: i128 = count as i128 + b.exponent + 3;
            Some(value_at_point(&digits, point))
        },
    }
}

/// Reads a number into thousandths.
pub fn parse_thousandths(s: &str) -> (r: Option<i64>)
    ensures
        r == thousandths(s@),
{
    let v = chars_of(s);
    let n: usize = v.len();
    let signed: bool = n > 0 && (v[0] == '+' || v[0] == '-');
    let minus: bool = signed && v[0] == '-';
    let from: usize = if signed {
        1
    } else {
        0
    };
    let ghost rest = v@.skip(from as int);
    assert(signed ==> rest =~= s@.drop_first());
    assert(!signed ==> rest =~= s@);
    let lower = to_ascii_lowercase(string_of_range(&v, from, n).as_str());
    assert(v@.subrange(from as int, n as int) =~= rest);
    if same(lower.as_str(), "inf") || same(lower.as_str(), "infinity") {
        return Some(if minus { i64::MIN } else { i64::MAX });
    }
    match parse_unsigned(&v, from) {
        None => None,
        Some(value) => {
            let big: i128 = if value > BEYOND {
                BEYOND as i128
            } else {
                value as i128
            };
            Some(fit_i64(if minus { -big } else { big }))
        },
    }
}

} // verus!
