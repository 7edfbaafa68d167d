//! What the manager asks of the windows on the screen.
use vstd::prelude::*;
use crate::wm::geometry::{fit, fit_i64, Rect, POINT};
use crate::wm::monitor::Monitor;
use crate::wm::window::WindowId;
use crate::wm::workspace::FloatingWindow;

verus! {

/// How far below its monitor a hidden window is put.
pub const HIDE_DISTANCE: i64 = 5_000_000;

/// Where a hidden window goes.
#[derive(Clone, Copy, Debug, PartialEq, Eq, Structural)]
pub struct HideSpot {
    /// The vertical edge of the monitor at which the window is hidden.
    pub edge: i64,
    /// Whether the window lies to the left of that edge.
    pub to_left: bool,
    pub y: i64,
}

impl HideSpot {
    /// The left edge of a window of some width: one point of it stays inside.
    pub open spec fn x_for(self, width: i64) -> i64 {
        if self.to_left {
            fit(self.edge + 1000 - width)
        } else {
            fit(self.edge - 1000)
        }
    }

    pub fn x(&self, width: i64) -> (r: i64)
        ensures
            r == self.x_for(width),
    {
        if self.to_left {
            fit_i64(self.edge as i128 + POINT as i128 - width as i128)
        } else {
            fit_i64(self.edge as i128 - POINT as i128)
        }
    }
}

/// One request to the window system.
#[derive(Clone, Copy, Debug, PartialEq, Eq, Structural)]
pub enum Effect {
    /// Makes a window opaque and puts it into a rectangle.
    Show { id: WindowId, rect: Rect },
    /// Shows a window above those of ordinary level.
    ShowAbove { id: WindowId, rect: Rect },
    /// Puts a window into a rectangle.
    Fit { id: WindowId, rect: Rect },
    /// Makes a window transparent and moves it out of sight; `width` is used
    /// where the width cannot be measured.
    Hide { id: WindowId, spot: HideSpot, width: i64 },
    /// Makes a window transparent.
    Fade { id: WindowId },
    /// Raises a window of floating level.
    Lift { id: WindowId },
    /// Changes the level of a window.
    Level { id: WindowId, floating: bool },
    /// Brings a window and its application to the front.
    Activate { id: WindowId, pid: Option<i32> },
    /// Takes the title bar highlight off a window.
    Deactivate { id: WindowId },
    /// Takes the title bar highlight off every window.
    DeactivateAll,
    /// Moves the mouse pointer.
    Warp { x: i64, y: i64 },
    /// Waits for some milliseconds.
    Pause { ms: u64 },
    /// Draws the border of a window.
    Border { id: WindowId, rect: Rect, focused: bool },
    /// Removes the border of a window.
    DropBorder { id: WindowId },
    /// Moves a window.
    Move { id: WindowId, x: i64, y: i64 },
    /// Changes the size of a window.
    Resize { id: WindowId, width: i64, height: i64 },
    /// Presses the close button of a window.
    Close { id: WindowId },
}

/// Shows each window in its rectangle.
pub open spec fn shows_of(geometries: Seq<(WindowId, Rect)>) -> Seq<Effect> {
    Seq::new(
        geometries.len(),
        |i: int| Effect::Show { id: geometries[i].0, rect: geometries[i].1 },
    )
}

/// Shows each window in its rectangle, above the others.
pub open spec fn shows_above_of(geometries: Seq<(WindowId, Rect)>) -> Seq<Effect> {
    Seq::new(
        geometries.len(),
        |i: int| Effect::ShowAbove { id: geometries[i].0, rect: geometries[i].1 },
    )
}

/// Puts each window into its rectangle.
pub open spec fn fits_of(geometries: Seq<(WindowId, Rect)>) -> Seq<Effect> {
    Seq::new(
        geometries.len(),
        |i: int| Effect::Fit { id: geometries[i].0, rect: geometries[i].1 },
    )
}

/// The floating windows with their rectangles.
pub open spec fn float_geometries(floating: Seq<FloatingWindow>) -> Seq<(WindowId, Rect)> {
    Seq::new(floating.len(), |i: int| (floating[i].id, floating[i].geometry))
}

/// Raises each floating window, the top one last.
pub open spec fn lifts_of(floating: Seq<FloatingWindow>) -> Seq<Effect> {
    Seq::new(floating.len(), |i: int| Effect::Lift { id: floating[i].id })
}

/// Makes each window transparent.
pub open spec fn fades_of(ids: Seq<WindowId>) -> Seq<Effect> {
    Seq::new(ids.len(), |i: int| Effect::Fade { id: ids[i] })
}

/// Draws the border of each window.
pub open spec fn borders_of(
    geometries: Seq<(WindowId, Rect)>,
    focused: Option<WindowId>,
) -> Seq<Effect> {
    Seq::new(
        geometries.len(),
        |i: int|
            Effect::Border {
                id: geometries[i].0,
                rect: geometries[i].1,
                focused: focused == Some(geometries[i].0),
            },
    )
}

/// Moves the pointer to the middle of a rectangle.
pub open spec fn warp_to(rect: Rect) -> Effect {
    Effect::Warp { x: fit(rect.twice_center_x() / 2), y: fit(rect.twice_center_y() / 2) }
}

pub fn warp_effect(rect: &Rect) -> (r: Effect)
    ensures
        r == warp_to(*rect),
{
    let (x, y) = rect.center();
    Effect::Warp { x, y }
}

pub fn float_rects(floating: &Vec<FloatingWindow>) -> (r: Vec<(WindowId, Rect)>)
    ensures
        r@ == float_geometries(floating@),
{
    let mut out: Vec<(WindowId, Rect)> = Vec::new();
    let mut i: usize = 0;
    while i < floating.len()
        invariant
            i <= floating@.len(),
            out@ == float_geometries(floating@.take(i as int)),
        decreases floating.len() - i,
    {
        out.push((floating[i].id, floating[i].geometry));
        i = i + 1;
        assert(out@ =~= float_geometries(floating@.take(i as int)));
    }
    assert(floating@.take(floating@.len() as int) =~= floating@);
    out
}

/// The left edge of the leftmost monitor.
pub open spec fn leftmost(monitors: Seq<Monitor>) -> int
    decreases monitors.len(),
{
    if monitors.len() == 0 {
        i64::MAX as int
    } else {
        let rest = leftmost(monitors.drop_last());
        if monitors.last().frame.x < rest {
            monitors.last().frame.x as int
        } else {
            rest
        }
    }
}

/// The right edge of the rightmost monitor.
pub open spec fn rightmost(monitors: Seq<Monitor>) -> int
    decreases monitors.len(),
{
    if monitors.len() == 0 {
        2 * i64::MIN
    } else {
        let rest = rightmost(monitors.drop_last());
        let right = monitors.last().frame.x + monitors.last().frame.width;
        if right > rest {
            right
        } else {
            rest
        }
    }
}

/// Where windows of a monitor are hidden: below it, at the side that is nearer
/// to the end of the desk.
pub open spec fn spot_for(
    frame: Rect,
    monitor_idx: Option<usize>,
    monitors: Seq<Monitor>,
) -> HideSpot {
    let y = fit(frame.y + frame.height + HIDE_DISTANCE);
    let to_left = !(monitor_idx is Some && monitor_idx->0 < monitors.len()) || frame.x - leftmost(
        monitors,
    ) <= rightmost(monitors) - (frame.x + frame.width);
    if to_left {
        HideSpot { edge: frame.x, to_left, y }
    } else {
        HideSpot { edge: fit(frame.x + frame.width), to_left, y }
    }
}

/// The extent of the monitors from left to right.
fn extent(monitors: &Vec<Monitor>) -> (r: (i128, i128))
    ensures
        r.0 == leftmost(monitors@),
        r.1 == rightmost(monitors@),
        i64::MIN <= r.0 <= i64::MAX,
        2 * i64::MIN <= r.1 <= 2 * i64::MAX,
{
    let mut left: i128 = i64::MAX as i128;
    let mut right: i128 = 2 * (i64::MIN as i128);
    let mut i: usize = 0;
    while i < monitors.len()
        invariant
            i <= monitors@.len(),
            left == leftmost(monitors@.take(i as int)),
            right == rightmost(monitors@.take(i as int)),
            i64::MIN <= left <= i64::MAX,
            2 * i64::MIN <= right <= 2 * i64::MAX,
        decreases monitors.len() - i,
    {
        assert(monitors@.take(i + 1).drop_last() =~= monitors@.take(i as int));
        let f: Rect = monitors[i].frame;
        if (f.x as i128) < left {
            left = f.x as i128;
        }
        let edge: i128 = f.x as i128 + f.width as i128;
        if edge > right {
            right = edge;
        }
        i = i + 1;
    }
    assert(monitors@.take(monitors@.len() as int) =~= monitors@);
    (left, right)
}

pub fn hide_spot(frame: Rect, monitor_idx: Option<usize>, monitors: &Vec<Monitor>) -> (r: HideSpot)
    ensures
        r == spot_for(frame, monitor_idx, monitors@),
{
    let y: i64 = fit_i64(frame.y as i128 + frame.height as i128 + HIDE_DISTANCE as i128);
    let known: bool = match monitor_idx {
        Some(idx) => idx < monitors.len(),
        None => false,
    };
    let right_edge: i128 = frame.x as i128 + frame.width as i128;
    let to_left: bool = if known {
        let (left, right) = extent(monitors);
        frame.x as i128 - left <= right - right_edge
    } else {
        true
    };
    if to_left {
        HideSpot { edge: frame.x, to_left, y }
    } else {
        HideSpot { edge: fit_i64(right_edge), to_left, y }
    }
}

/// The top left corner of a hidden window of some width.
pub fn hide_target_for_frame(
    frame: Rect,
    width: i64,
    monitor_idx: Option<usize>,
    monitors: &Vec<Monitor>,
) -> (r: (i64, i64))
    ensures
        r.0 == spot_for(frame, monitor_idx, monitors@).x_for(width),
        r.1 == fit(frame.y + frame.height + HIDE_DISTANCE),
{
    let spot = hide_spot(frame, monitor_idx, monitors);
    (spot.x(width), spot.y)
}

/// A hidden window lies below its monitor, and at most one point of it reaches
/// over the edge at which it is hidden.
pub proof fn law_hidden_window_is_out_of_sight(
    frame: Rect,
    width: i64,
    monitor_idx: Option<usize>,
    monitors: Seq<Monitor>,
)
    requires
        frame.y + frame.height + HIDE_DISTANCE <= i64::MAX,
        frame.x + frame.width <= i64::MAX,
        i64::MIN + 2000 <= frame.x - width,
        frame.x + 1000 - width <= i64::MAX,
        i64::MIN + 2000 <= frame.x + frame.width,
        0 <= frame.height,
        i64::MIN <= frame.y + frame.height,
        width >= 0,
    ensures
        ({
            let spot = spot_for(frame, monitor_idx, monitors);
            &&& spot.y >= frame.y + frame.height
            &&& spot.to_left ==> spot.x_for(width) + width == frame.x + POINT
            &&& !spot.to_left ==> spot.x_for(width) == frame.x + frame.width - POINT
        }),
{
}

} // verus!
