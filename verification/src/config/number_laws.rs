//! Laws of numbers and settings in text.
use vstd::prelude::*;
use crate::config::numbers::{
    decimal_parts, digit_run, magnitude, number_text, pointed_value, rounded, ten_to, thousandths,
};
use crate::config::settings::Setup;
use crate::text::{
    all_digits, ascii_lowered, decimal, digits_value, is_digit, lemma_decimal_digits, zero_padded,
};
use crate::wm::geometry::fit;

verus! {

// --- Rounding ---

/// A rounded quotient is a whole number next to which no other is nearer; of two that are as near
/// it is the even one.
pub proof fn law_rounding_is_nearest(a: int, unit: int)
    requires
        a >= 0,
        unit > 0,
    ensures
        ({
            let r = rounded(a, unit);
            let off = r * unit - a;
            &&& -unit <= 2 * off <= unit
            &&& 2 * off == unit || 2 * off == -unit ==> r % 2 == 0
        }),
{
    let q = a / unit;
    let rest = a % unit;
    assert(a == q * unit + rest && 0 <= rest < unit) by (nonlinear_arith)
        requires
            unit > 0,
            q == a / unit,
            rest == a % unit,
    ;
    assert((q + 1) * unit == q * unit + unit) by (nonlinear_arith);
}

// --- Reading ---

proof fn lemma_run(digits: Seq<char>, rest: Seq<char>)
    requires
        all_digits(digits),
        rest.len() == 0 || !is_digit(rest[0]),
    ensures
        digit_run(digits + rest) == digits.len(),
    decreases digits.len(),
{
    let s = digits + rest;
    if digits.len() == 0 {
        assert(s =~= rest);
    } else {
        assert(s[0] == digits[0]);
        assert(s.drop_first() =~= digits.drop_first() + rest);
        assert forall|i: int| 0 <= i < digits.drop_first().len() implies is_digit(
            #[trigger] digits.drop_first()[i],
        ) by {
            assert(is_digit(digits[i + 1]));
        }
        lemma_run(digits.drop_first(), rest);
    }
}

pub proof fn lemma_joined_value(a: Seq<char>, b: Seq<char>)
    ensures
        digits_value(a + b) == digits_value(a) * ten_to(b.len()) + digits_value(b),
    decreases b.len(),
{
    if b.len() == 0 {
        assert(a + b =~= a);
        assert(digits_value(a) * 1 == digits_value(a));
    } else {
        let c = b.drop_last();
        assert((a + b).drop_last() =~= a + c);
        assert((a + b).last() == b.last());
        lemma_joined_value(a, c);
        let x = digits_value(a);
        let t = ten_to(c.len());
        assert((x * t + digits_value(c)) * 10 == x * (10 * t) + digits_value(c) * 10)
            by (nonlinear_arith);
    }
}

proof fn lemma_padded(h: nat)
    requires
        h < 100,
    ensures
        ({
            let s = zero_padded(decimal(h), 2);
            s.len() == 2 && all_digits(s) && digits_value(s) == h
        }),
{
    let d = decimal(h);
    let s = zero_padded(d, 2);
    lemma_decimal_digits(h);
    if h < 10 {
        assert(d.len() == 1);
        let zeros = Seq::new(1nat, |i: int| '0');
        assert(s == zeros + d);
        assert(zeros.drop_last() =~= seq![]);
        assert(digits_value(zeros.drop_last()) == 0);
        assert(digits_value(zeros) == 0);
        lemma_joined_value(zeros, d);
        assert(0 * ten_to(1) == 0);
    } else {
        assert(decimal(h / 10).len() == 1);
        assert(d.len() == 2);
    }
}

/// A text of digits, optionally with a sign, is neither `inf` nor `infinity`.
proof fn lemma_no_word(s: Seq<char>)
    requires
        s.len() > 0,
        is_digit(s[0]),
    ensures
        ascii_lowered(s) != "inf"@,
        ascii_lowered(s) != "infinity"@,
{
    reveal_strlit("inf");
    reveal_strlit("infinity");
    assert(ascii_lowered(s)[0] == s[0]);
}

proof fn lemma_unsigned_read(w: nat, h: nat)
    requires
        h < 100,
    ensures
        ({
            let s = decimal(w) + seq!['.'] + zero_padded(decimal(h), 2);
            &&& decimal_parts(s) is Some
            &&& pointed_value(
                decimal_parts(s)->0.whole + decimal_parts(s)->0.fraction,
                decimal_parts(s)->0.whole.len() + decimal_parts(s)->0.exponent + 3,
            ) == 1000 * w + 10 * h
        }),
        ({
            let s = decimal(w);
            &&& decimal_parts(s) is Some
            &&& pointed_value(
                decimal_parts(s)->0.whole + decimal_parts(s)->0.fraction,
                decimal_parts(s)->0.whole.len() + decimal_parts(s)->0.exponent + 3,
            ) == 1000 * w
        }),
{
    let d = decimal(w);
    let f = zero_padded(decimal(h), 2);
    let s = d + seq!['.'] + f;
    lemma_decimal_digits(w);
    lemma_padded(h);
    let n = d.len() as int;
    assert(s =~= d + (seq!['.'] + f));
    lemma_run(d, seq!['.'] + f);
    assert(s.take(n) =~= d);
    assert(s.skip(n) =~= seq!['.'] + f);
    assert(s.skip(n).drop_first() =~= f);
    assert(f + seq![] =~= f);
    lemma_run(f, seq![]);
    assert(f.take(2) =~= f);
    assert(f.skip(2) =~= seq![]);
    lemma_joined_value(d, f);
    reveal_with_fuel(ten_to, 4);
    assert(ten_to(1) == 10 && ten_to(2) == 100 && ten_to(3) == 1000);
    assert(digits_value(d + f) == w * 100 + h);
    let after = s.skip(n).drop_first();
    assert(digit_run(after) == 2);
    assert(after.take(2) =~= f);
    assert(after.skip(2) =~= seq![]);
    let parts = decimal_parts(s)->0;
    assert(parts.whole == d && parts.fraction == f && parts.exponent == 0);
    let all = parts.whole + parts.fraction;
    assert(all.len() == n + 2);
    assert(pointed_value(all, n + 3) == digits_value(all) * ten_to(1));
    assert((w * 100 + h) * 10 == 1000 * w + 10 * h);
    assert(d + seq![] =~= d);
    lemma_run(d, seq![]);
    assert(d.take(n) =~= d);
    assert(d.skip(n) =~= seq![]);
    let none = d.skip(n).take(0);
    assert(d + none =~= d);
}

/// A whole number in digits is read as a thousand times so many thousandths, with a minus sign as
/// so many below zero; with two digits behind a point each of these counts ten thousandths.
pub proof fn law_number_is_read(w: nat, h: nat)
    requires
        h < 100,
    ensures
        thousandths(decimal(w)) == Some(fit(1000int * w)),
        thousandths(seq!['-'] + decimal(w)) == Some(fit(-(1000 * w))),
        thousandths(decimal(w) + seq!['.'] + zero_padded(decimal(h), 2)) == Some(
            fit(1000int * w + 10int * h),
        ),
        thousandths(seq!['-'] + decimal(w) + seq!['.'] + zero_padded(decimal(h), 2)) == Some(
            fit(-(1000 * w + 10 * h)),
        ),
{
    lemma_decimal_digits(w);
    lemma_unsigned_read(w, h);
    let d = decimal(w);
    assert(is_digit(d[0]));
    let p = d + seq!['.'] + zero_padded(decimal(h), 2);
    assert(p[0] == d[0]);
    lemma_no_word(d);
    lemma_no_word(p);
    let minus = seq!['-'] + d;
    assert(minus.drop_first() =~= d);
    let minus_p = seq!['-'] + d + seq!['.'] + zero_padded(decimal(h), 2);
    assert(minus_p.drop_first() =~= p);
}

/// A number that is written to the configuration is read back to within ten thousandths, and
/// exactly if it has no more than two decimals.
pub proof fn law_written_number_is_read_back(v: i64)
    requires
        -i64::MAX + 10 <= v <= i64::MAX - 10,
    ensures
        thousandths(number_text(v as int)) matches Some(r) && {
            &&& -10 < r - v < 10
            &&& v % 10 == 0 ==> r == v
        },
{
    let a = magnitude(v as int);
    if a % 1000 < 10 {
        lemma_whole_text(v);
    } else {
        law_rounding_is_nearest(a, 10);
        lemma_pointed_text(v);
    }
}

proof fn lemma_whole_text(v: i64)
    requires
        -i64::MAX + 10 <= v <= i64::MAX - 10,
        magnitude(v as int) % 1000 < 10,
    ensures
        ({
            let w = magnitude(v as int) / 1000;
            thousandths(number_text(v as int)) == Some(
                (if v < 0 {
                    -(1000 * w)
                } else {
                    1000 * w
                }) as i64,
            )
        }),
{
    let a = magnitude(v as int);
    let w = a / 1000;
    let t = number_text(v as int);
    law_number_is_read(w as nat, 0);
    if v < 0 && w > 0 {
        assert(t == seq!['-'] + decimal(w as nat));
    } else {
        assert(t == decimal(w as nat));
    }
}

proof fn lemma_pointed_text(v: i64)
    requires
        -i64::MAX + 10 <= v <= i64::MAX - 10,
        magnitude(v as int) % 1000 >= 10,
        rounded(magnitude(v as int), 10) * 10 <= i64::MAX,
    ensures
        ({
            let h = rounded(magnitude(v as int), 10);
            thousandths(number_text(v as int)) == Some(
                (if v < 0 {
                    -(10 * h)
                } else {
                    10 * h
                }) as i64,
            )
        }),
{
    let a = magnitude(v as int);
    let h = rounded(a, 10);
    let w = (h / 100) as nat;
    let f = (h % 100) as nat;
    let t = number_text(v as int);
    law_number_is_read(w, f);
    assert(1000 * w + 10 * f == 10 * h);
    if v < 0 {
        assert(t =~= seq!['-'] + decimal(w) + seq!['.'] + zero_padded(decimal(f), 2));
    } else {
        assert(t =~= decimal(w) + seq!['.'] + zero_padded(decimal(f), 2));
    }
}

// --- Settings ---

proof fn lemma_setting_names()
    ensures
        "gap_inner"@.len() == 9,
        "gap_outer"@.len() == 9,
        "gap_inner"@[4] == 'i',
        "gap_outer"@[4] == 'o',
        "focus_follows_mouse"@.len() == 19,
        "mouse_follows_focus"@.len() == 19,
        "focus_follows_mouse"@[0] == 'f',
        "mouse_follows_focus"@[0] == 'm',
        "mod_key"@.len() == 7,
        "terminal"@.len() == 8,
        "bar_height"@.len() == 10,
        "border_width"@.len() == 12,
        "border_color_focused"@.len() == 20,
        "border_color_unfocused"@.len() == 22,
        "border_radius"@.len() == 13,
        "true"@.len() == 4,
        "false"@.len() == 5,
{
    reveal_strlit("gap_inner");
    reveal_strlit("gap_outer");
    reveal_strlit("focus_follows_mouse");
    reveal_strlit("mouse_follows_focus");
    reveal_strlit("mod_key");
    reveal_strlit("terminal");
    reveal_strlit("bar_height");
    reveal_strlit("border_width");
    reveal_strlit("border_color_focused");
    reveal_strlit("border_color_unfocused");
    reveal_strlit("border_radius");
    reveal_strlit("true");
    reveal_strlit("false");
}

/// Setting a length to so many points gives it so many thousands of thousandths and leaves every
/// other setting alone; a text that is no number changes nothing.
pub proof fn law_length_is_set(s: Setup, points: nat, other: Seq<char>)
    requires
        1000 * points <= i64::MAX,
        thousandths(other) is None,
    ensures
        ({
            let v = decimal(points);
            let n = (1000 * points) as i64;
            &&& s.with_setting("gap_inner"@, v) == (Setup { gap_inner: n, ..s })
            &&& s.with_setting("gap_outer"@, v) == (Setup { gap_outer: n, ..s })
            &&& s.with_setting("bar_height"@, v) == (Setup { bar_height: n, ..s })
            &&& s.with_setting("border_width"@, v) == (Setup { border_width: n, ..s })
            &&& s.with_setting("border_radius"@, v) == (Setup { border_radius: n, ..s })
        }),
        s.with_setting("gap_inner"@, other) == s,
        s.with_setting("gap_outer"@, other) == s,
        s.with_setting("bar_height"@, other) == s,
        s.with_setting("border_width"@, other) == s,
        s.with_setting("border_radius"@, other) == s,
{
    lemma_setting_names();
    law_number_is_read(points, 0);
}

/// A flag is set by `true` and cleared by any other text, a text is taken as it is, and nothing
/// else changes.
pub proof fn law_flag_or_text_is_set(s: Setup, text: Seq<char>)
    ensures
        s.with_setting("focus_follows_mouse"@, "true"@) == (Setup {
            focus_follows_mouse: true,
            ..s
        }),
        s.with_setting("mouse_follows_focus"@, "true"@) == (Setup {
            mouse_follows_focus: true,
            ..s
        }),
        text != "true"@ ==> s.with_setting("focus_follows_mouse"@, text) == (Setup {
            focus_follows_mouse: false,
            ..s
        }),
        text != "true"@ ==> s.with_setting("mouse_follows_focus"@, text) == (Setup {
            mouse_follows_focus: false,
            ..s
        }),
        s.with_setting("terminal"@, text) == (Setup { terminal_command: text, ..s }),
        s.with_setting("border_color_focused"@, text) == (Setup {
            border_color_focused: text,
            ..s
        }),
        s.with_setting("border_color_unfocused"@, text) == (Setup {
            border_color_unfocused: text,
            ..s
        }),
{
    lemma_setting_names();
}

} // verus!
