//! Window borders: their colours, how the border renderer is started, and how
//! often it is started again.
use vstd::prelude::*;
use crate::config::settings::Settings;
use crate::text::{
    chars_of, copy, decimal, number, padded_number, string_of_range, views, zero_padded,
};

verus! {

// --- Colours ---

/// A colour, one byte per channel.
#[derive(Clone, Copy, Debug, PartialEq, Eq, Structural)]
pub struct BorderColor {
    pub r: u8,
    pub g: u8,
    pub b: u8,
    pub a: u8,
}

/// The value of a hexadecimal digit.
pub open spec fn hex_value(c: char) -> Option<int> {
    let n = c as u32 as int;
    if 48 <= n <= 57 {
        Some(n - 48)
    } else if 97 <= n <= 102 {
        Some(n - 87)
    } else if 65 <= n <= 70 {
        Some(n - 55)
    } else {
        None
    }
}

fn hex_digit_value(c: char) -> (r: Option<u8>)
    ensures
        match r {
            Some(v) => hex_value(c) == Some(v as int) && v < 16,
            None => hex_value(c) is None,
        },
{
    let n: u32 = c as u32;
    if 48 <= n && n <= 57 {
        Some((n - 48) as u8)
    } else if 97 <= n && n <= 102 {
        Some((n - 87) as u8)
    } else if 65 <= n && n <= 70 {
        Some((n - 55) as u8)
    } else {
        None
    }
}

/// The byte of two characters: two digits, or a plus sign and a digit.
pub open spec fn pair_value(high: char, low: char) -> Option<int> {
    match hex_value(low) {
        None => None,
        Some(l) => if high == '+' {
            Some(l)
        } else {
            match hex_value(high) {
                Some(h) => Some(16 * h + l),
                None => None,
            }
        },
    }
}

fn read_pair(high: char, low: char) -> (r: Option<u8>)
    ensures
        match r {
            Some(v) => pair_value(high, low) == Some(v as int),
            None => pair_value(high, low) is None,
        },
{
    match hex_digit_value(low) {
        None => None,
        Some(l) => if high == '+' {
            Some(l)
        } else {
            match hex_digit_value(high) {
                Some(h) => Some(16 * h + l),
                None => None,
            }
        },
    }
}

/// The text without the number signs at its start.
pub open spec fn unsigned(s: Seq<char>) -> Seq<char>
    decreases s.len(),
{
    if s.len() > 0 && s[0] == '#' {
        unsigned(s.drop_first())
    } else {
        s
    }
}

/// The colour of six or eight characters; without the last two it is opaque.
pub open spec fn color_of(s: Seq<char>) -> Option<BorderColor> {
    if s.len() != 6 && s.len() != 8 {
        None
    } else {
        match (pair_value(s[0], s[1]), pair_value(s[2], s[3]), pair_value(s[4], s[5])) {
            (Some(r), Some(g), Some(b)) => if s.len() == 6 {
                Some(BorderColor { r: r as u8, g: g as u8, b: b as u8, a: 255 })
            } else {
                match pair_value(s[6], s[7]) {
                    Some(a) => Some(
                        BorderColor { r: r as u8, g: g as u8, b: b as u8, a: a as u8 },
                    ),
                    None => None,
                }
            },
            _ => None,
        }
    }
}

/// The colour that a text stands for: black where it stands for none.
pub open spec fn color_named(s: Seq<char>) -> BorderColor {
    match color_of(unsigned(s)) {
        Some(color) => color,
        None => BorderColor { r: 0, g: 0, b: 0, a: 255 },
    }
}

/// A hexadecimal digit.
pub open spec fn hex_char(v: int) -> char {
    if v < 10 {
        (v + 48) as char
    } else {
        (v + 87) as char
    }
}

/// The two digits of a byte.
pub open spec fn byte_text(v: u8) -> Seq<char> {
    seq![hex_char(v as int / 16), hex_char(v as int % 16)]
}

fn digit_of(v: u8) -> (r: char)
    requires
        v < 16,
    ensures
        r == hex_char(v as int),
{
    if v < 10 {
        (v + 48) as char
    } else {
        (v + 87) as char
    }
}

fn push_byte(out: &mut String, v: u8)
    ensures
        final(out)@ == old(out)@ + byte_text(v),
{
    out.push(digit_of(v / 16));
    out.push(digit_of(v % 16));
    assert(out@ =~= old(out)@ + byte_text(v));
}

impl BorderColor {
    /// The colour as a text; an opaque one without its last channel.
    pub open spec fn text(self) -> Seq<char> {
        let rgb = seq!['#'] + byte_text(self.r) + byte_text(self.g) + byte_text(self.b);
        if self.a == 255 {
            rgb
        } else {
            rgb + byte_text(self.a)
        }
    }

    fn try_from_hex(hex: &Vec<char>, from: usize) -> (r: Option<Self>)
        requires
            from <= hex@.len(),
        ensures
            r == color_of(hex@.skip(from as int)),
    {
        let total: usize = hex.len();
        let n: usize = total - from;
        if n != 6 && n != 8 {
            return None;
        }
        let r = read_pair(hex[from], hex[from + 1]);
        let g = read_pair(hex[from + 2], hex[from + 3]);
        let b = read_pair(hex[from + 4], hex[from + 5]);
        match (r, g, b) {
            (Some(r), Some(g), Some(b)) => if n == 6 {
                Some(BorderColor { r, g, b, a: 255 })
            } else {
                match read_pair(hex[from + 6], hex[from + 7]) {
                    Some(a) => Some(BorderColor { r, g, b, a }),
                    None => None,
                }
            },
            _ => None,
        }
    }

    /// Reads `#RRGGBB` or `#RRGGBBAA`.
    pub fn from_hex(hex: &str) -> (r: Self)
        ensures
            r == color_named(hex@),
    {
        let chars = chars_of(hex);
        let mut from: usize = 0;
        assert(chars@.skip(0) =~= chars@);
        while from < chars.len() && chars[from] == '#'
            invariant
                from <= chars@.len(),
                unsigned(chars@.skip(from as int)) == unsigned(chars@),
            decreases chars.len() - from,
        {
            assert(chars@.skip(from as int).drop_first() =~= chars@.skip(from + 1));
            from = from + 1;
        }
        match BorderColor::try_from_hex(&chars, from) {
            Some(color) => color,
            None => BorderColor { r: 0, g: 0, b: 0, a: 255 },
        }
    }

    pub fn hex_string(self) -> (r: String)
        ensures
            r@ == self.text(),
    {
        let mut out = String::new();
        out.push('#');
        assert(out@ =~= seq!['#']);
        push_byte(&mut out, self.r);
        push_byte(&mut out, self.g);
        push_byte(&mut out, self.b);
        if self.a != 255 {
            push_byte(&mut out, self.a);
        }
        out
    }
}

proof fn lemma_byte_round_trip(v: u8)
    ensures
        pair_value(byte_text(v)[0], byte_text(v)[1]) == Some(v as int),
        byte_text(v)[0] != '#',
        byte_text(v)[0] != '+',
{
    let h = v as int / 16;
    let l = v as int % 16;
    assert(0 <= h < 16 && 0 <= l < 16 && v == 16 * h + l);
    lemma_digit_round_trip(h);
    lemma_digit_round_trip(l);
}

proof fn lemma_digit_round_trip(v: int)
    requires
        0 <= v < 16,
    ensures
        hex_value(hex_char(v)) == Some(v),
        hex_char(v) != '#',
        hex_char(v) != '+',
{
}

/// A colour that was written is read back.
pub proof fn law_color_round_trip(color: BorderColor)
    ensures
        color_named(color.text()) == color,
{
    let s = color.text();
    let rest = s.drop_first();
    lemma_byte_round_trip(color.r);
    lemma_byte_round_trip(color.g);
    lemma_byte_round_trip(color.b);
    lemma_byte_round_trip(color.a);
    assert(rest[0] == byte_text(color.r)[0]);
    assert(rest[1] == byte_text(color.r)[1]);
    assert(rest[2] == byte_text(color.g)[0]);
    assert(rest[3] == byte_text(color.g)[1]);
    assert(rest[4] == byte_text(color.b)[0]);
    assert(rest[5] == byte_text(color.b)[1]);
    if color.a != 255 {
        assert(rest[6] == byte_text(color.a)[0]);
        assert(rest[7] == byte_text(color.a)[1]);
    }
    reveal_with_fuel(unsigned, 2);
    assert(unsigned(s) == rest);
}

// --- Starting the renderer ---

/// A text without zeros at its end.
pub open spec fn without_end_zeros(s: Seq<char>) -> Seq<char>
    decreases s.len(),
{
    if s.len() > 0 && s.last() == '0' {
        without_end_zeros(s.drop_last())
    } else {
        s
    }
}

/// A number of thousandths in as few digits as it takes.
pub open spec fn shortest_text(v: i64) -> Seq<char> {
    let a = if v < 0 {
        -(v as int)
    } else {
        v as int
    };
    let sign = if v < 0 {
        seq!['-']
    } else {
        seq![]
    };
    let whole = sign + decimal((a / 1000) as nat);
    if a % 1000 == 0 {
        whole
    } else {
        whole + seq!['.'] + without_end_zeros(zero_padded(decimal((a % 1000) as nat), 3))
    }
}

fn cut_zeros(digits: &Vec<char>) -> (r: usize)
    ensures
        r <= digits@.len(),
        digits@.take(r as int) == without_end_zeros(digits@),
{
    let mut n: usize = digits.len();
    assert(digits@.take(n as int) =~= digits@);
    while n > 0 && digits[n - 1] == '0'
        invariant
            n <= digits@.len(),
            without_end_zeros(digits@.take(n as int)) == without_end_zeros(digits@),
        decreases n,
    {
        assert(digits@.take(n as int).drop_last() =~= digits@.take(n - 1));
        n = n - 1;
    }
    assert(n > 0 ==> digits@.take(n as int).last() == digits@[n - 1]);
    n
}

/// Writes a number of thousandths in as few digits as it takes.
pub fn shortest_number(v: i64) -> (r: String)
    ensures
        r@ == shortest_text(v),
{
    let a: u64 = if v < 0 {
        (-(v as i128)) as u64
    } else {
        v as u64
    };
    let mut out = String::new();
    if v < 0 {
        out.push('-');
        assert(out@ =~= seq!['-']);
    } else {
        assert(out@ =~= seq![]);
    }
    out.push_str(number(a / 1000).as_str());
    if a % 1000 != 0 {
        let ghost whole = out@;
        out.push('.');
        assert(out@ =~= whole + seq!['.']);
        let digits = chars_of(padded_number(a % 1000, 3).as_str());
        let n: usize = cut_zeros(&digits);
        out.push_str(string_of_range(&digits, 0, n).as_str());
        assert(digits@.subrange(0, n as int) =~= digits@.take(n as int));
    }
    out
}

/// How often the renderer is started again within `RESTART_WINDOW`.
pub const RESTART_BUDGET: usize = 5;

/// The time over which restarts count, in milliseconds.
pub const RESTART_WINDOW: u64 = 60_000;

/// How long the renderer is left alone once the budget is used up.
pub const BACKOFF_DURATION: u64 = 300_000;

/// The least time between two looks at the renderer.
pub const HEALTH_CHECK_INTERVAL: u64 = 1000;

/// The border renderer: how it looks, and when it was started again. Times
/// are milliseconds.
#[derive(Debug)]
pub struct BorderManager {
    pub border_width: i64,
    pub focused_color: BorderColor,
    pub unfocused_color: BorderColor,
    pub radius: i64,
    /// When it was last started again, the oldest first.
    pub recent_restarts: Vec<u64>,
    /// Until when it is left alone.
    pub backoff_until: Option<u64>,
    pub last_health_check: Option<u64>,
}

/// The times that are not older than the window.
pub open spec fn within_window(times: Seq<u64>, now: u64) -> Seq<u64>
    decreases times.len(),
{
    if times.len() == 0 {
        seq![]
    } else {
        let before = within_window(times.drop_last(), now);
        if times.last() + RESTART_WINDOW >= now {
            before.push(times.last())
        } else {
            before
        }
    }
}

fn keep_window(times: &Vec<u64>, now: u64) -> (r: Vec<u64>)
    ensures
        r@ == within_window(times@, now),
{
    let mut kept: Vec<u64> = Vec::new();
    let mut i: usize = 0;
    assert(kept@ =~= within_window(times@.take(0), now));
    while i < times.len()
        invariant
            i <= times@.len(),
            kept@ == within_window(times@.take(i as int), now),
        decreases times.len() - i,
    {
        proof {
            assert(times@.take(i + 1).drop_last() =~= times@.take(i as int));
            assert(times@.take(i + 1).last() == times@[i as int]);
        }
        if times[i] as u128 + RESTART_WINDOW as u128 >= now as u128 {
            kept.push(times[i]);
        }
        i = i + 1;
    }
    assert(times@.take(times@.len() as int) =~= times@);
    kept
}

/// What a look at the renderer finds.
#[derive(Clone, Copy, Debug, PartialEq, Eq, Structural)]
pub enum Renderer {
    Running,
    /// It was running and has ended.
    Ended,
    /// There is none.
    Absent,
}

/// When the renderer was started again, until when it is left alone, and when
/// it was last looked at, as a mathematical value.
#[verifier::ext_equal]
pub struct Watch {
    pub restarts: Seq<u64>,
    pub backoff_until: Option<u64>,
    pub last_check: Option<u64>,
}

/// A time so much later, or the last one that there is.
pub open spec fn backed_off(now: u64) -> u64 {
    if now + BACKOFF_DURATION <= u64::MAX {
        (now + BACKOFF_DURATION) as u64
    } else {
        u64::MAX
    }
}

impl Watch {
    /// Whether the last look is long enough ago.
    pub open spec fn is_due(self, now: u64) -> bool {
        match self.last_check {
            Some(last) => now - last >= HEALTH_CHECK_INTERVAL,
            None => true,
        }
    }

    /// Whether the renderer is being left alone.
    pub open spec fn is_backing_off(self, now: u64) -> bool {
        self.backoff_until matches Some(until) && now < until
    }

    /// Whether there is a renderer to start again: one that has ended, now or
    /// before it was left alone.
    pub open spec fn lacks(self, renderer: Renderer) -> bool {
        renderer == Renderer::Ended || (renderer == Renderer::Absent && self.backoff_until is Some)
    }

    /// Whether the renderer may be started again.
    pub open spec fn allows(self, now: u64) -> bool {
        !self.is_backing_off(now) && within_window(self.restarts, now).len() < RESTART_BUDGET
    }

    /// Whether a look at the renderer starts it again.
    pub open spec fn starts(self, enabled: bool, now: u64, renderer: Renderer) -> bool {
        enabled && self.is_due(now) && self.lacks(renderer) && self.allows(now)
    }

    /// The renderer was looked at. Once the budget is used up it is left alone
    /// for a while.
    pub open spec fn checked(self, enabled: bool, now: u64, renderer: Renderer) -> Watch {
        if !enabled || !self.is_due(now) {
            self
        } else if !self.lacks(renderer) || self.is_backing_off(now) {
            Watch { last_check: Some(now), ..self }
        } else if self.allows(now) {
            Watch {
                restarts: within_window(self.restarts, now).push(now),
                backoff_until: None,
                last_check: Some(now),
            }
        } else {
            Watch {
                restarts: seq![],
                backoff_until: Some(backed_off(now)),
                last_check: Some(now),
            }
        }
    }
}

impl BorderManager {
    pub open spec fn watch(self) -> Watch {
        Watch {
            restarts: self.recent_restarts@,
            backoff_until: self.backoff_until,
            last_check: self.last_health_check,
        }
    }

    pub fn new() -> (r: Self)
        ensures
            r.border_width == 0,
            r.focused_color == (BorderColor { r: 0x52, g: 0x94, b: 0xe2, a: 255 }),
            r.unfocused_color == (BorderColor { r: 0x2d, g: 0x2d, b: 0x2d, a: 255 }),
            r.radius == 10_000,
            r.recent_restarts@ == Seq::<u64>::empty(),
            r.backoff_until is None,
            r.last_health_check is None,
    {
        BorderManager {
            border_width: 0,
            focused_color: BorderColor { r: 0x52, g: 0x94, b: 0xe2, a: 255 },
            unfocused_color: BorderColor { r: 0x2d, g: 0x2d, b: 0x2d, a: 255 },
            radius: 10_000,
            recent_restarts: Vec::new(),
            backoff_until: None,
            last_health_check: None,
        }
    }

    /// Borders are drawn if they have a width.
    pub fn is_enabled(&self) -> (r: bool)
        ensures
            r == (self.border_width > 0),
    {
        self.border_width > 0
    }

    /// The arguments to start the renderer with; none if there are no borders.
    pub fn spawn(&self) -> (r: Option<Vec<String>>)
        ensures
            match r {
                Some(args) => self.border_width > 0 && views(args@) == seq![
                    "--active-only"@,
                    "--width"@,
                    shortest_text(self.border_width),
                    "--radius"@,
                    shortest_text(self.radius),
                    "--color"@,
                    self.focused_color.text(),
                    "--inactive"@,
                    self.unfocused_color.text(),
                ],
                None => self.border_width <= 0,
            },
    {
        if !self.is_enabled() {
            return None;
        }
        let mut args: Vec<String> = Vec::new();
        args.push(copy("--active-only"));
        args.push(copy("--width"));
        args.push(shortest_number(self.border_width));
        args.push(copy("--radius"));
        args.push(shortest_number(self.radius));
        args.push(copy("--color"));
        args.push(self.focused_color.hex_string());
        args.push(copy("--inactive"));
        args.push(self.unfocused_color.hex_string());
        assert(views(args@) =~= seq![
            "--active-only"@,
            "--width"@,
            shortest_text(self.border_width),
            "--radius"@,
            shortest_text(self.radius),
            "--color"@,
            self.focused_color.text(),
            "--inactive"@,
            self.unfocused_color.text(),
        ]);
        Some(args)
    }

    /// A restart that the user asked for: earlier ones are forgotten.
    pub fn restart(&mut self) -> (r: Option<Vec<String>>)
        ensures
            final(self).recent_restarts@ == Seq::<u64>::empty(),
            final(self).backoff_until is None,
            final(self).border_width == old(self).border_width,
            final(self).focused_color == old(self).focused_color,
            final(self).unfocused_color == old(self).unfocused_color,
            final(self).radius == old(self).radius,
            final(self).last_health_check == old(self).last_health_check,
            r is Some <==> old(self).border_width > 0,
            r matches Some(args) ==> views(args@) == seq![
                "--active-only"@,
                "--width"@,
                shortest_text(old(self).border_width),
                "--radius"@,
                shortest_text(old(self).radius),
                "--color"@,
                old(self).focused_color.text(),
                "--inactive"@,
                old(self).unfocused_color.text(),
            ],
    {
        self.recent_restarts = Vec::new();
        self.backoff_until = None;
        self.spawn()
    }

    /// Takes over the look of the borders.
    pub fn configure(&mut self, settings: &Settings)
        ensures
            final(self).border_width == settings.border_width,
            final(self).focused_color == color_named(settings.border_color_focused@),
            final(self).unfocused_color == color_named(settings.border_color_unfocused@),
            final(self).radius == settings.border_radius,
            final(self).recent_restarts@ == old(self).recent_restarts@,
            final(self).backoff_until == old(self).backoff_until,
            final(self).last_health_check == old(self).last_health_check,
    {
        self.border_width = settings.border_width;
        self.focused_color = BorderColor::from_hex(settings.border_color_focused.as_str());
        self.unfocused_color = BorderColor::from_hex(settings.border_color_unfocused.as_str());
        self.radius = settings.border_radius;
    }

    /// Whether to look now whether the renderer still runs.
    pub fn check_is_due(&self, now: u64) -> (r: bool)
        ensures
            r == (self.border_width > 0 && self.watch().is_due(now)),
    {
        if !self.is_enabled() {
            return false;
        }
        match self.last_health_check {
            Some(last) => now >= last && now - last >= HEALTH_CHECK_INTERVAL,
            None => true,
        }
    }

    /// Looks after the renderer, and says whether to start it again. Once the
    /// budget is used up it is left alone for a while, and then tried once
    /// more.
    pub fn health_check(&mut self, now: u64, renderer: Renderer) -> (r: bool)
        ensures
            r == old(self).watch().starts(old(self).border_width > 0, now, renderer),
            final(self).watch() == old(self).watch().checked(
                old(self).border_width > 0,
                now,
                renderer,
            ),
            final(self).border_width == old(self).border_width,
            final(self).focused_color == old(self).focused_color,
            final(self).unfocused_color == old(self).unfocused_color,
            final(self).radius == old(self).radius,
    {
        if !self.check_is_due(now) {
            return false;
        }
        self.last_health_check = Some(now);
        let lacking: bool = match renderer {
            Renderer::Running => false,
            Renderer::Ended => true,
            Renderer::Absent => self.backoff_until.is_some(),
        };
        if !lacking {
            return false;
        }
        if let Some(until) = self.backoff_until {
            if now < until {
                return false;
            }
        }
        self.backoff_until = None;
        self.recent_restarts = keep_window(&self.recent_restarts, now);
        if self.recent_restarts.len() >= RESTART_BUDGET {
            self.backoff_until = Some(now.saturating_add(BACKOFF_DURATION));
            self.recent_restarts = Vec::new();
            assert(self.recent_restarts@ =~= seq![]);
            return false;
        }
        self.recent_restarts.push(now);
        true
    }
}

proof fn lemma_window_keeps(times: Seq<u64>, now: u64)
    ensures
        within_window(times, now).len() <= times.len(),
    decreases times.len(),
{
    if times.len() > 0 {
        lemma_window_keeps(times.drop_last(), now);
    }
}

/// The renderer is not started again and again: as long as no more restarts
/// than the budget are remembered, that stays so, and a renderer that ended
/// as often within the window is not started.
pub proof fn law_restarts_are_budgeted(
    watch: Watch,
    enabled: bool,
    now: u64,
    renderer: Renderer,
)
    requires
        watch.restarts.len() <= RESTART_BUDGET,
    ensures
        watch.checked(enabled, now, renderer).restarts.len() <= RESTART_BUDGET,
        within_window(watch.restarts, now).len() == RESTART_BUDGET ==> !watch.starts(
            enabled,
            now,
            renderer,
        ),
{
    lemma_window_keeps(watch.restarts, now);
}

/// After the renderer ended with the budget used up, nothing is started until
/// the cooldown is over; then it is tried once more, and no cooldown is left.
pub proof fn law_tried_once_more_after_cooldown(watch: Watch, ended: u64, now: u64)
    requires
        watch.is_due(ended),
        !watch.is_backing_off(ended),
        within_window(watch.restarts, ended).len() >= RESTART_BUDGET,
    ensures
        ({
            let resting = watch.checked(true, ended, Renderer::Ended);
            &&& !watch.starts(true, ended, Renderer::Ended)
            &&& resting.backoff_until == Some(backed_off(ended))
            &&& now < backed_off(ended) ==> !resting.starts(true, now, Renderer::Absent)
            &&& now >= backed_off(ended) && resting.is_due(now) ==> {
                &&& resting.starts(true, now, Renderer::Absent)
                &&& resting.checked(true, now, Renderer::Absent).backoff_until is None
                &&& resting.checked(true, now, Renderer::Absent).restarts == seq![now]
            }
        }),
{
    let resting = watch.checked(true, ended, Renderer::Ended);
    assert(within_window(resting.restarts, now) =~= seq![]);
    assert(within_window(resting.restarts, now).push(now) =~= seq![now]);
}

/// Looks in between, while the renderer is absent, change nothing about the
/// cooldown.
pub proof fn law_cooldown_is_kept(watch: Watch, enabled: bool, now: u64)
    requires
        watch.is_backing_off(now),
    ensures
        ({
            let after = watch.checked(enabled, now, Renderer::Absent);
            &&& after.backoff_until == watch.backoff_until
            &&& after.restarts == watch.restarts
        }),
{
}

} // verus!
