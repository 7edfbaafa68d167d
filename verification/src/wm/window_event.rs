//! What the screen reports of windows.
use vstd::prelude::*;
use crate::text::{opt_view, same};
use crate::wm::window::WindowId;

verus! {

/// What happened to a window.
#[derive(Clone, Copy, Debug, PartialEq, Eq, Structural)]
pub enum WindowEventKind {
    Created,
    Destroyed,
    FocusChanged,
    Moved,
    Resized,
    TitleChanged,
    Minimized,
    Unminimized,
}

/// What happened to a window, with what could be read of the window then.
#[derive(Debug)]
pub struct WindowEvent {
    pub kind: WindowEventKind,
    pub pid: i32,
    pub app_name: String,
    pub app_bundle: String,
    pub role: Option<String>,
    pub subrole: Option<String>,
    pub id: Option<WindowId>,
    pub title: Option<String>,
    pub position: Option<(i64, i64)>,
    pub size: Option<(i64, i64)>,
}

/// An event as a mathematical value.
pub struct Event {
    pub kind: WindowEventKind,
    pub pid: i32,
    pub app_name: Seq<char>,
    pub app_bundle: Seq<char>,
    pub role: Option<Seq<char>>,
    pub subrole: Option<Seq<char>>,
    pub id: Option<WindowId>,
    pub title: Option<Seq<char>>,
    pub position: Option<(i64, i64)>,
    pub size: Option<(i64, i64)>,
}

impl View for WindowEvent {
    type V = Event;

    open spec fn view(&self) -> Event {
        Event {
            kind: self.kind,
            pid: self.pid,
            app_name: self.app_name@,
            app_bundle: self.app_bundle@,
            role: opt_view(self.role),
            subrole: opt_view(self.subrole),
            id: self.id,
            title: opt_view(self.title),
            position: self.position,
            size: self.size,
        }
    }
}

/// The kind of event that a notification of the accessibility system announces.
pub open spec fn kind_of_notification(name: Seq<char>) -> Option<WindowEventKind> {
    if name == "AXWindowCreated"@ {
        Some(WindowEventKind::Created)
    } else if name == "AXUIElementDestroyed"@ {
        Some(WindowEventKind::Destroyed)
    } else if name == "AXFocusedWindowChanged"@ {
        Some(WindowEventKind::FocusChanged)
    } else if name == "AXWindowMoved"@ {
        Some(WindowEventKind::Moved)
    } else if name == "AXWindowResized"@ {
        Some(WindowEventKind::Resized)
    } else if name == "AXTitleChanged"@ {
        Some(WindowEventKind::TitleChanged)
    } else if name == "AXWindowMiniaturized"@ {
        Some(WindowEventKind::Minimized)
    } else if name == "AXWindowDeminiaturized"@ {
        Some(WindowEventKind::Unminimized)
    } else {
        None
    }
}

impl WindowEventKind {
    pub fn from_notification(name: &str) -> (r: Option<Self>)
        ensures
            r == kind_of_notification(name@),
    {
        if same(name, "AXWindowCreated") {
            Some(WindowEventKind::Created)
        } else if same(name, "AXUIElementDestroyed") {
            Some(WindowEventKind::Destroyed)
        } else if same(name, "AXFocusedWindowChanged") {
            Some(WindowEventKind::FocusChanged)
        } else if same(name, "AXWindowMoved") {
            Some(WindowEventKind::Moved)
        } else if same(name, "AXWindowResized") {
            Some(WindowEventKind::Resized)
        } else if same(name, "AXTitleChanged") {
            Some(WindowEventKind::TitleChanged)
        } else if same(name, "AXWindowMiniaturized") {
            Some(WindowEventKind::Minimized)
        } else if same(name, "AXWindowDeminiaturized") {
            Some(WindowEventKind::Unminimized)
        } else {
            None
        }
    }
}

/// Whether a window of some role is a window or a dialog that can be managed.
pub open spec fn manageable(role: Option<Seq<char>>, subrole: Option<Seq<char>>) -> bool {
    role == Some("AXWindow"@) && subrole is Some && (subrole->0 == "AXStandardWindow"@ || subrole->0
        == "AXDialog"@ || subrole->0 == "AXSystemDialog"@ || subrole->0 == "AXSheet"@ || subrole->0
        == "AXFloatingWindow"@ || subrole->0 == "AXSystemFloatingWindow"@)
}

pub fn is_manageable_window(role: &Option<String>, subrole: &Option<String>) -> (r: bool)
    ensures
        r == manageable(opt_view(*role), opt_view(*subrole)),
{
    match role {
        Some(a) => match subrole {
            Some(b) => {
                let s: &str = b.as_str();
                same(a.as_str(), "AXWindow") && (same(s, "AXStandardWindow") || same(s, "AXDialog")
                    || same(s, "AXSystemDialog") || same(s, "AXSheet") || same(
                    s,
                    "AXFloatingWindow",
                ) || same(s, "AXSystemFloatingWindow"))
            },
            None => false,
        },
        None => false,
    }
}

/// Whether a window of some subrole floats by itself.
pub open spec fn floats_by_itself(subrole: Seq<char>) -> bool {
    subrole == "AXDialog"@ || subrole == "AXSheet"@ || subrole == "AXFloatingWindow"@ || subrole
        == "AXSystemFloatingWindow"@
}

pub fn should_auto_float(subrole: &str) -> (r: bool)
    ensures
        r == floats_by_itself(subrole@),
{
    same(subrole, "AXDialog") || same(subrole, "AXSheet") || same(subrole, "AXFloatingWindow")
        || same(subrole, "AXSystemFloatingWindow")
}

} // verus!
