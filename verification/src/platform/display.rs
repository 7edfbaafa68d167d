//! Displays as the system reports them, and the part of each that windows can
//! use.
use vstd::prelude::*;
use crate::seqs::{first_where, lemma_first_where, lemma_first_where_none};
use crate::wm::geometry::{fit, fit_i64, Rect};
use crate::wm::monitor::{primary, Monitor};

verus! {

/// A rectangle that is measured from the bottom left.
#[derive(Clone, Copy, Debug, PartialEq, Eq, Structural)]
pub struct NSRect {
    pub x: i64,
    pub y: i64,
    pub width: i64,
    pub height: i64,
}

/// The same rectangle measured from the top left of the main display.
pub open spec fn from_top_left(visible: NSRect, main_height: i64) -> Rect {
    Rect {
        x: visible.x,
        y: fit(main_height - visible.y - visible.height),
        width: visible.width,
        height: visible.height,
    }
}

pub fn top_left_rect_from_visible_frame(visible: NSRect, main_height: i64) -> (r: Rect)
    ensures
        r == from_top_left(visible, main_height),
{
    let y: i128 = main_height as i128 - visible.y as i128 - visible.height as i128;
    Rect::new(visible.x, fit_i64(y), visible.width, visible.height)
}

/// Measured from the other side and back, a rectangle is the same.
pub proof fn law_turned_twice(visible: NSRect, main_height: i64)
    requires
        i64::MIN <= main_height - visible.y - visible.height <= i64::MAX,
    ensures
        ({
            let once = from_top_left(visible, main_height);
            let turned = NSRect {
                x: once.x,
                y: once.y,
                width: once.width,
                height: once.height,
            };
            let twice = from_top_left(turned, main_height);
            &&& twice.x == visible.x
            &&& twice.y == visible.y
            &&& twice.width == visible.width
            &&& twice.height == visible.height
        }),
{
}

/// A screen: the display that it is on, if that is known, and its usable part.
#[derive(Clone, Copy, Debug, PartialEq, Eq, Structural)]
pub struct ScreenInfo {
    pub display_id: Option<u32>,
    pub visible: NSRect,
}

/// Tells the screen on a display.
pub open spec fn is_screen_of(display_id: u32) -> spec_fn(ScreenInfo) -> bool {
    |s: ScreenInfo| s.display_id == Some(display_id)
}

/// The usable part of a display by its screen.
pub open spec fn usable_part(screens: Seq<ScreenInfo>, display_id: u32, main_height: i64) -> Option<
    Rect,
> {
    match first_where(screens, is_screen_of(display_id)) {
        Some(i) => Some(from_top_left(screens[i].visible, main_height)),
        None => None,
    }
}

/// Finds the screen on a display by the number of the display, since two
/// screens may have the same size.
pub fn find_nsscreen_for_display(
    screens: &Vec<ScreenInfo>,
    display_id: u32,
    main_height: i64,
) -> (r: Option<Rect>)
    ensures
        r == usable_part(screens@, display_id, main_height),
{
    let ghost p = is_screen_of(display_id);
    let mut i: usize = 0;
    while i < screens.len()
        invariant
            p == is_screen_of(display_id),
            i <= screens@.len(),
            forall|j: int| 0 <= j < i ==> !p(#[trigger] screens@[j]),
        decreases screens.len() - i,
    {
        if screens[i].display_id == Some(display_id) {
            proof {
                lemma_first_where(screens@, p, i as int);
            }
            return Some(top_left_rect_from_visible_frame(screens[i].visible, main_height));
        }
        i = i + 1;
    }
    proof {
        lemma_first_where_none(screens@, p);
    }
    None
}

// --- The menu bar on further displays ---

/// What is kept free for a menu bar that a display does not report.
pub const FALLBACK_MENUBAR_HEIGHT: i64 = 30_000;

/// Half a point.
pub const HALF_POINT: i64 = 500;

/// A height that is not negative.
pub open spec fn height_left(h: int) -> i64 {
    if h < 0 {
        0
    } else {
        fit(h)
    }
}

/// Whether two lengths are the same to half a point.
pub open spec fn nearly(a: i64, b: i64) -> bool {
    -HALF_POINT < a - b < HALF_POINT
}

/// The usable part of a further display. The menu bar of the main display is
/// kept free on a display that it reaches into; on another one that reports
/// itself free as a whole, some room at the top is.
pub open spec fn reserved(m: Monitor, primary_top: i64) -> Rect {
    let u = m.usable_frame;
    if u.y < primary_top && u.y + u.height > primary_top {
        Rect {
            y: primary_top,
            height: height_left(u.height - (primary_top - u.y)),
            ..u
        }
    } else if nearly(u.height, m.frame.height) && nearly(u.y, m.frame.y) {
        Rect {
            y: fit(u.y + FALLBACK_MENUBAR_HEIGHT),
            height: height_left(u.height - FALLBACK_MENUBAR_HEIGHT),
            ..u
        }
    } else {
        u
    }
}

/// A display once the menu bar is kept free.
pub open spec fn with_menu_bar(m: Monitor, primary_top: i64) -> Monitor {
    if m.is_primary {
        m
    } else {
        Monitor { usable_frame: reserved(m, primary_top), ..m }
    }
}

/// Displays once the menu bar is kept free; nothing changes without a main
/// display.
pub open spec fn menu_bar_reserved(monitors: Seq<Monitor>) -> Seq<Monitor> {
    match first_where(monitors, primary()) {
        Some(p) => Seq::new(
            monitors.len(),
            |i: int| with_menu_bar(monitors[i], monitors[p].usable_frame.y),
        ),
        None => monitors,
    }
}

fn limit_height(h: i128) -> (r: i64)
    ensures
        r == height_left(h as int),
{
    if h < 0 {
        0
    } else {
        fit_i64(h)
    }
}

fn is_nearly(a: i64, b: i64) -> (r: bool)
    ensures
        r == nearly(a, b),
{
    let d: i128 = a as i128 - b as i128;
    -(HALF_POINT as i128) < d && d < HALF_POINT as i128
}

fn keep_menu_bar_free(m: &Monitor, primary_top: i64) -> (r: Monitor)
    ensures
        r == with_menu_bar(*m, primary_top),
{
    let mut out: Monitor = *m;
    if !m.is_primary {
        let u: Rect = m.usable_frame;
        let bottom: i128 = u.y as i128 + u.height as i128;
        if u.y < primary_top && bottom > primary_top as i128 {
            let left: i128 = u.height as i128 - (primary_top as i128 - u.y as i128);
            out.usable_frame = Rect::new(u.x, primary_top, u.width, limit_height(left));
        } else if is_nearly(u.height, m.frame.height) && is_nearly(u.y, m.frame.y) {
            out.usable_frame = Rect::new(
                u.x,
                fit_i64(u.y as i128 + FALLBACK_MENUBAR_HEIGHT as i128),
                u.width,
                limit_height(u.height as i128 - FALLBACK_MENUBAR_HEIGHT as i128),
            );
        }
    }
    out
}

/// Keeps the menu bar free on all displays.
pub fn reserve_menu_bar(monitors: &Vec<Monitor>) -> (r: Vec<Monitor>)
    ensures
        r@ == menu_bar_reserved(monitors@),
{
    let ghost p = primary();
    let mut top: Option<i64> = None;
    let mut k: usize = 0;
    while k < monitors.len() && top.is_none()
        invariant
            p == primary(),
            k <= monitors@.len(),
            match top {
                Some(y) => first_where(monitors@, p) == Some(k - 1) && k > 0 && y
                    == monitors@[k - 1].usable_frame.y,
                None => forall|j: int| 0 <= j < k ==> !p(#[trigger] monitors@[j]),
            },
        decreases monitors.len() - k,
    {
        if monitors[k].is_primary {
            proof {
                lemma_first_where(monitors@, p, k as int);
            }
            top = Some(monitors[k].usable_frame.y);
        }
        k = k + 1;
    }
    let ghost all = menu_bar_reserved(monitors@);
    proof {
        if top is None {
            lemma_first_where_none(monitors@, p);
        }
    }
    let mut out: Vec<Monitor> = Vec::new();
    let mut i: usize = 0;
    while i < monitors.len()
        invariant
            all == menu_bar_reserved(monitors@),
            match top {
                Some(y) => first_where(monitors@, primary()) is Some && y
                    == monitors@[first_where(monitors@, primary())->0].usable_frame.y,
                None => first_where(monitors@, primary()) is None,
            },
            i <= monitors@.len(),
            out@ == all.take(i as int),
        decreases monitors.len() - i,
    {
        let m: Monitor = match top {
            Some(y) => keep_menu_bar_free(&monitors[i], y),
            None => monitors[i],
        };
        out.push(m);
        assert(out@ =~= all.take(i + 1));
        i = i + 1;
    }
    assert(all.take(all.len() as int) =~= all);
    out
}

/// The usable part of a further display never starts above the menu bar where
/// that reaches into it, and never grows at the bottom.
pub proof fn law_menu_bar_kept_free(m: Monitor, primary_top: i64)
    requires
        !m.is_primary,
        m.usable_frame.height >= 0,
        m.usable_frame.y + m.usable_frame.height <= i64::MAX,
    ensures
        ({
            let before = m.usable_frame;
            let after = with_menu_bar(m, primary_top).usable_frame;
            &&& after.y >= before.y
            &&& after.height <= before.height
            &&& after.height >= 0
            &&& after.height > 0 ==> after.y + after.height == before.y + before.height
            &&& before.y < primary_top < before.y + before.height ==> after.y == primary_top
        }),
{
}

// --- All displays ---

/// A display as the system reports it.
#[derive(Clone, Copy, Debug, PartialEq, Eq, Structural)]
pub struct DisplayInfo {
    pub id: u32,
    pub frame: Rect,
}

/// A display before the menu bar is kept free.
pub open spec fn monitor_of(
    display: DisplayInfo,
    main_id: u32,
    main_height: i64,
    screens: Seq<ScreenInfo>,
) -> Monitor {
    Monitor {
        id: display.id,
        frame: display.frame,
        usable_frame: match usable_part(screens, display.id, main_height) {
            Some(rect) => rect,
            None => display.frame,
        },
        is_primary: display.id == main_id,
        active_workspace: 0,
    }
}

pub open spec fn monitors_of(
    displays: Seq<DisplayInfo>,
    main_id: u32,
    main_height: i64,
    screens: Seq<ScreenInfo>,
) -> Seq<Monitor> {
    Seq::new(displays.len(), |i: int| monitor_of(displays[i], main_id, main_height, screens))
}

/// The monitors of all displays.
pub fn discover_displays(
    displays: &Vec<DisplayInfo>,
    main_id: u32,
    main_height: i64,
    screens: &Vec<ScreenInfo>,
) -> (r: Vec<Monitor>)
    ensures
        r@ == menu_bar_reserved(monitors_of(displays@, main_id, main_height, screens@)),
{
    let ghost all = monitors_of(displays@, main_id, main_height, screens@);
    let mut monitors: Vec<Monitor> = Vec::new();
    let mut i: usize = 0;
    while i < displays.len()
        invariant
            all == monitors_of(displays@, main_id, main_height, screens@),
            i <= displays@.len(),
            monitors@ == all.take(i as int),
        decreases displays.len() - i,
    {
        let usable_frame = match find_nsscreen_for_display(screens, displays[i].id, main_height) {
            Some(rect) => rect,
            None => displays[i].frame,
        };
        monitors.push(
            Monitor {
                id: displays[i].id,
                frame: displays[i].frame,
                usable_frame,
                is_primary: displays[i].id == main_id,
                active_workspace: 0,
            },
        );
        assert(monitors@ =~= all.take(i + 1));
        i = i + 1;
    }
    assert(all.take(all.len() as int) =~= all);
    reserve_menu_bar(&monitors)
}

// --- Changes of the displays ---

/// The least time between two changes of the displays, in milliseconds.
pub const DISPLAY_DEBOUNCE: u64 = 500;

/// The flag of a change that has only begun.
pub const BEGIN_FLAG: u32 = 1;

/// When the displays last changed.
#[derive(Clone, Copy, Debug, PartialEq, Eq, Structural)]
pub struct DisplayDebounce {
    pub last_fire: Option<u64>,
}

impl DisplayDebounce {
    /// Whether a report stands for a new change: not for one that has only
    /// begun, nor one that was reported a moment ago.
    pub open spec fn is_new(self, flags: u32, now: u64) -> bool {
        &&& flags & BEGIN_FLAG == 0
        &&& match self.last_fire {
            Some(last) => now - last >= DISPLAY_DEBOUNCE,
            None => true,
        }
    }

    pub fn new() -> (r: Self)
        ensures
            r.last_fire is None,
    {
        DisplayDebounce { last_fire: None }
    }

    /// Takes a report, and says whether to act on it.
    pub fn reported(&mut self, flags: u32, now: u64) -> (r: bool)
        ensures
            r == old(self).is_new(flags, now),
            final(self).last_fire == if r {
                Some(now)
            } else {
                old(self).last_fire
            },
    {
        if flags & BEGIN_FLAG != 0 {
            return false;
        }
        if let Some(last) = self.last_fire {
            if now < last || now - last < DISPLAY_DEBOUNCE {
                return false;
            }
        }
        self.last_fire = Some(now);
        true
    }
}

} // verus!
