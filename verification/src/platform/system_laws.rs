//! Laws of what is told to the system and what it reports.
use vstd::prelude::*;
use crate::platform::application::{managed_windows, regular_apps, App, RunningApp, WindowReading};
use crate::config::keybinds::{basic_binds, workspace_binds};
use crate::config::number_laws::lemma_joined_value;
use crate::config::numbers::ten_to;
use crate::platform::border::{
    color_named, shortest_text, unsigned, within_window, without_end_zeros, Renderer, Watch,
};
use crate::platform::display::{
    from_top_left, monitor_of, DisplayDebounce, DisplayInfo, NSRect, ScreenInfo,
};
use crate::platform::hotkey::{basic_hotkeys, carbon_modifiers, move_hotkeys, switch_hotkeys};
use crate::seqs::{first_where, is_first_where, lemma_first_where, lemma_first_where_found};
use crate::text::{all_digits, decimal, digits_value, lemma_decimal_digits, opt_view, zero_padded};
use crate::wm::input::{Modifiers, COMMAND_BIT};

verus! {

// --- Hotkeys ---

/// Each modifier has its own bit for the system, set if and only if it is held: 256 for command,
/// 512 for shift, 2048 for option and 4096 for control; no other bit is set.
pub proof fn law_modifiers_have_their_bits(m: Modifiers)
    ensures
        ({
            let c = carbon_modifiers(m);
            &&& c & 0x100 == 0x100 <==> m.bits & 8 == 8
            &&& c & 0x200 == 0x200 <==> m.bits & 1 == 1
            &&& c & 0x800 == 0x800 <==> m.bits & 4 == 4
            &&& c & 0x1000 == 0x1000 <==> m.bits & 2 == 2
            &&& c & 0xffff_e4ff == 0
        }),
{
    let command: u32 = if m.bits & 8 == 8 {
        0x100
    } else {
        0
    };
    let shift: u32 = if m.bits & 1 == 1 {
        0x200
    } else {
        0
    };
    let option: u32 = if m.bits & 4 == 4 {
        0x800
    } else {
        0
    };
    let control: u32 = if m.bits & 2 == 2 {
        0x1000
    } else {
        0
    };
    let c = command | shift | option | control;
    assert(c == carbon_modifiers(m));
    assert(((command == 0x100 && c & 0x100 == 0x100) || (command == 0 && c & 0x100 == 0)) && ((shift
        == 0x200 && c & 0x200 == 0x200) || (shift == 0 && c & 0x200 == 0)) && ((option == 0x800 && c
        & 0x800 == 0x800) || (option == 0 && c & 0x800 == 0)) && ((control == 0x1000 && c & 0x1000
        == 0x1000) || (control == 0 && c & 0x1000 == 0)) && c & 0xffff_e4ff == 0) by (bit_vector)
        requires
            command == 0x100 || command == 0,
            shift == 0x200 || shift == 0,
            option == 0x800 || option == 0,
            control == 0x1000 || control == 0,
            c == command | shift | option | control,
    ;
}

// --- Colours ---

/// Whether a character is the hexadecimal digit of a value, in either case.
pub open spec fn is_hex(c: char, v: int) -> bool {
    ||| 0 <= v <= 9 && c as u32 == 48 + v
    ||| 10 <= v <= 15 && (c as u32 == 87 + v || c as u32 == 55 + v)
}

/// Of the digits of a colour the first two give red, the next two green, the next two blue and the
/// last two, where there are eight, how opaque it is; with six it is opaque. The first of two counts
/// sixteen times. A number sign in front does not matter.
pub proof fn law_colour_channels(s: Seq<char>, v: Seq<int>)
    requires
        s.len() == 6 || s.len() == 8,
        v.len() == s.len(),
        forall|i: int| 0 <= i < s.len() ==> is_hex(#[trigger] s[i], v[i]),
    ensures
        ({
            let c = color_named(s);
            &&& c.r == 16 * v[0] + v[1]
            &&& c.g == 16 * v[2] + v[3]
            &&& c.b == 16 * v[4] + v[5]
            &&& c.a == if s.len() == 8 {
                16 * v[6] + v[7]
            } else {
                255
            }
            &&& color_named(seq!['#'] + s) == c
        }),
{
    assert(is_hex(s[0], v[0]) && is_hex(s[1], v[1]) && is_hex(s[2], v[2]));
    assert(is_hex(s[3], v[3]) && is_hex(s[4], v[4]) && is_hex(s[5], v[5]));
    if s.len() == 8 {
        assert(is_hex(s[6], v[6]) && is_hex(s[7], v[7]));
    }
    assert(s[0] != '#' && s[0] != '+' && s[2] != '+' && s[4] != '+');
    assert(unsigned(s) == s);
    let t = seq!['#'] + s;
    assert(t.drop_first() =~= s);
    assert(unsigned(t) == s);
}

// --- The renderer ---

/// The renderer of borders is looked at once a second at most, is started again at most five times
/// within a minute, and is left alone for five minutes after that.
pub proof fn law_renderer_is_watched(watch: Watch, now: u64)
    ensures
        watch.last_check matches Some(last) && now < last + 1000 ==> watch.checked(
            true,
            now,
            Renderer::Ended,
        ) == watch && !watch.starts(true, now, Renderer::Ended),
        within_window(watch.restarts, now).len() >= 5 ==> !watch.starts(true, now, Renderer::Ended),
        watch.last_check is None && watch.backoff_until is None && within_window(
            watch.restarts,
            now,
        ).len() < 5 ==> watch.starts(true, now, Renderer::Ended),
        watch.last_check is None && watch.backoff_until is None && within_window(
            watch.restarts,
            now,
        ).len() >= 5 && now + 300_000 <= u64::MAX ==> watch.checked(
            true,
            now,
            Renderer::Ended,
        ).backoff_until == Some((now + 300_000) as u64),
        !watch.starts(true, now, Renderer::Running),
        !watch.starts(false, now, Renderer::Ended),
{
}

/// A restart counts as long as it is not more than a minute ago.
pub proof fn law_restarts_count_for_a_minute(times: Seq<u64>, t: u64, now: u64)
    ensures
        within_window(times.push(t), now) == if now - t <= 60_000 {
            within_window(times, now).push(t)
        } else {
            within_window(times, now)
        },
{
    assert(times.push(t).drop_last() =~= times);
}

// --- Displays ---

/// Measured from the top, a rectangle begins where it ends measured from the bottom, and ends where
/// it begins; from left to right and in size it is the same.
pub proof fn law_rectangle_is_turned_over(visible: NSRect, main_height: i64)
    requires
        i64::MIN <= main_height - (visible.y + visible.height) <= i64::MAX,
    ensures
        ({
            let r = from_top_left(visible, main_height);
            &&& r.y == main_height - (visible.y + visible.height)
            &&& r.y + r.height == main_height - visible.y
            &&& r.x == visible.x
            &&& r.width == visible.width
            &&& r.height == visible.height
        }),
{
}

/// A monitor has the number and frame of its display, and is the main one if and only if its display
/// is; its usable part is that of the first screen on this display, and all of it without one.
pub proof fn law_monitor_of_display(
    display: DisplayInfo,
    main_id: u32,
    main_height: i64,
    screens: Seq<ScreenInfo>,
    k: int,
)
    ensures
        ({
            let m = monitor_of(display, main_id, main_height, screens);
            &&& m.id == display.id
            &&& m.frame == display.frame
            &&& m.is_primary == (display.id == main_id)
            &&& 0 <= k < screens.len() && screens[k].display_id == Some(display.id) && (forall|
                j: int,
            |
                0 <= j < k ==> (#[trigger] screens[j]).display_id != Some(display.id))
                ==> m.usable_frame == from_top_left(screens[k].visible, main_height)
            &&& (forall|j: int|
                0 <= j < screens.len() ==> (#[trigger] screens[j]).display_id != Some(display.id))
                ==> m.usable_frame == display.frame
        }),
{
    let p = crate::platform::display::is_screen_of(display.id);
    lemma_first_where_found(screens, p);
    if let Some(i) = first_where(screens, p) {
        assert(p(screens[i]));
    }
    if 0 <= k < screens.len() && screens[k].display_id == Some(display.id) && (forall|j: int|
        0 <= j < k ==> (#[trigger] screens[j]).display_id != Some(display.id)) {
        assert(is_first_where(screens, p, k));
        lemma_first_where(screens, p, k);
    }
}

/// A change of the displays is acted on half a second after the last one at the earliest, and not
/// while it has only begun.
pub proof fn law_changes_of_displays_are_spaced(d: DisplayDebounce, flags: u32, now: u64)
    ensures
        flags & 1 == 1 ==> !d.is_new(flags, now),
        d.last_fire matches Some(last) && now < last + 500 ==> !d.is_new(flags, now),
        flags & 1 == 0 && d.last_fire is None ==> d.is_new(flags, now),
        (d.last_fire matches Some(last) && now >= last + 500) && flags & 1 == 0 ==> d.is_new(
            flags,
            now,
        ),
{
}

// --- Programs and windows ---

/// Programs are listed in order, and a further one only if it is an ordinary one with an identifier
/// and a name, with these and its number.
pub proof fn law_ordinary_programs_are_listed(apps: Seq<RunningApp>, app: RunningApp)
    ensures
        ({
            let before = regular_apps(apps);
            let after = regular_apps(apps.push(app));
            if app.is_regular && app.bundle_id is Some && app.name is Some {
                &&& after.len() == before.len() + 1
                &&& after.take(before.len() as int) == before
                &&& after.last().pid == app.pid
                &&& after.last().bundle_id == app.bundle_id->0@
                &&& after.last().name == app.name->0@
            } else {
                after == before
            }
        }),
{
    assert(apps.push(app).drop_last() =~= apps);
    let before = regular_apps(apps);
    let after = regular_apps(apps.push(app));
    if app.is_regular && app.bundle_id is Some && app.name is Some {
        assert(after.take(before.len() as int) =~= before);
    }
}

/// Windows are listed in order. An ordinary window with a number, a title, a place and a size is
/// listed with them and its program; one without a number or role is not.
pub proof fn law_windows_of_program_are_listed(
    app: App,
    windows: Seq<WindowReading>,
    w: WindowReading,
)
    ensures
        ({
            let before = managed_windows(app, windows);
            let after = managed_windows(app, windows.push(w));
            let n = after.last();
            &&& w.id is None || w.role is None || w.subrole is None ==> after == before
            &&& w.id is Some && opt_view(w.role) == Some("AXWindow"@) && opt_view(w.subrole) == Some(
                "AXStandardWindow"@,
            ) ==> {
                &&& after.len() == before.len() + 1
                &&& after.take(before.len() as int) == before
                &&& n.id == w.id->0
                &&& n.app_pid == app.pid
                &&& n.app_name == app.name
                &&& n.app_bundle_id == app.bundle_id
                &&& w.title is Some ==> n.title == w.title->0@
                &&& w.position is Some ==> w.position == Some((n.x, n.y))
                &&& w.size is Some ==> w.size == Some((n.width, n.height))
            }
        }),
{
    assert(windows.push(w).drop_last() =~= windows);
    let before = managed_windows(app, windows);
    let after = managed_windows(app, windows.push(w));
    if after != before {
        assert(after.take(before.len() as int) =~= before);
    }
}

// --- The usual hotkeys ---

/// The usual hotkeys are the usual bindings of the command key.
pub proof fn law_hotkeys_are_usual_bindings(i: int)
    ensures
        ({
            let command = Modifiers { bits: COMMAND_BIT };
            &&& 0 <= i < basic_hotkeys().len() ==> basic_binds(command).contains(basic_hotkeys()[i])
            &&& 0 <= i < 10 ==> {
                &&& switch_hotkeys()[i] == workspace_binds(command, i + 1)[0]
                &&& move_hotkeys()[i] == workspace_binds(command, i + 1)[1]
            }
        }),
{
    let command = Modifiers { bits: COMMAND_BIT };
    let binds = basic_binds(command);
    let keys = basic_hotkeys();
    if 0 <= i < keys.len() {
        if i < 2 {
            assert(keys[i] == binds[i]);
        } else if i < 22 {
            assert(keys[i] == binds[i + 4]);
        } else {
            assert(keys[i] == binds[i - 20]);
        }
    }
}

// --- Numbers for the renderer ---

proof fn lemma_end_zeros(s: Seq<char>)
    ensures
        ({
            let t = without_end_zeros(s);
            &&& t.len() <= s.len()
            &&& t == s.take(t.len() as int)
            &&& t.len() > 0 ==> t.last() != '0'
            &&& digits_value(t) * ten_to((s.len() - t.len()) as nat) == digits_value(s)
        }),
    decreases s.len(),
{
    let t = without_end_zeros(s);
    if s.len() > 0 && s.last() == '0' {
        lemma_end_zeros(s.drop_last());
        let n = (s.drop_last().len() - t.len()) as nat;
        assert(s.drop_last().take(t.len() as int) =~= s.take(t.len() as int));
        let v = digits_value(t);
        let p = ten_to(n);
        assert(v * (10 * p) == (v * p) * 10) by (nonlinear_arith);
    } else {
        assert(s.take(s.len() as int) =~= s);
        assert(digits_value(t) * 1 == digits_value(t));
    }
}

proof fn lemma_three_digits(m: nat)
    requires
        m < 1000,
    ensures
        ({
            let s = zero_padded(decimal(m), 3);
            s.len() == 3 && all_digits(s) && digits_value(s) == m
        }),
{
    let d = decimal(m);
    lemma_decimal_digits(m);
    let s = zero_padded(d, 3);
    assert(decimal(m / 100).len() == 1);
    assert(m / 10 / 10 == m / 100);
    assert(m >= 10 ==> decimal(m / 10).len() == if m >= 100 {
        2nat
    } else {
        1nat
    });
    assert(d.len() <= 3);
    let n = (3 - d.len()) as nat;
    let zeros = Seq::new(n, |i: int| '0');
    assert(n == 0 ==> s =~= zeros + d);
    assert(s == zeros + d);
    lemma_zeros(n);
    lemma_joined_value(zeros, d);
    assert(0 * ten_to(d.len()) == 0);
}

proof fn lemma_zeros(n: nat)
    ensures
        digits_value(Seq::new(n, |i: int| '0')) == 0,
    decreases n,
{
    if n > 0 {
        let s = Seq::new(n, |i: int| '0');
        assert(s.drop_last() =~= Seq::new((n - 1) as nat, |i: int| '0'));
        lemma_zeros((n - 1) as nat);
    }
}

/// A number of thousandths is written with its whole part and, behind a point, with the digits that
/// give the rest, of which the last is no zero.
pub proof fn law_number_is_written_short(v: i64)
    ensures
        ({
            let a = if v < 0 {
                -(v as int)
            } else {
                v as int
            };
            let text = shortest_text(v);
            let whole = (if v < 0 {
                seq!['-']
            } else {
                seq![]
            }) + decimal((a / 1000) as nat);
            &&& a % 1000 == 0 ==> text == whole
            &&& a % 1000 != 0 ==> {
                let digits = text.skip(whole.len() as int + 1);
                &&& text == whole + seq!['.'] + digits
                &&& 1 <= digits.len() <= 3
                &&& digits.last() != '0'
                &&& digits_value(digits) * ten_to((3 - digits.len()) as nat) == a % 1000
            }
        }),
{
    let a = if v < 0 {
        -(v as int)
    } else {
        v as int
    };
    let m = (a % 1000) as nat;
    let whole = (if v < 0 {
        seq!['-']
    } else {
        seq![]
    }) + decimal((a / 1000) as nat);
    let padded = zero_padded(decimal(m), 3);
    let digits = without_end_zeros(padded);
    lemma_three_digits(m);
    lemma_end_zeros(padded);
    if m != 0 {
        let text = shortest_text(v);
        assert(text == whole + seq!['.'] + digits);
        assert(text.skip(whole.len() as int + 1) =~= digits);
        if digits.len() == 0 {
            assert(digits_value(digits) == 0);
            let unit = ten_to(3);
            let value = digits_value(digits);
            assert(value * unit == 0) by (nonlinear_arith)
                requires
                    value == 0,
            ;
        }
    }
}

} // verus!
