//! Programs that run, and their windows as far as they are managed.
use vstd::prelude::*;
use crate::text::{copy, opt_view};
use crate::wm::lifecycle::new_views;
use crate::wm::state::{NewWin, NewWindow};
use crate::wm::window::WindowId;
use crate::wm::window_event::{is_manageable_window, manageable};

verus! {

/// A program as the system reports it.
#[derive(Debug)]
pub struct RunningApp {
    pub pid: i32,
    /// Whether it is an ordinary program, with windows and a place in the dock.
    pub is_regular: bool,
    pub bundle_id: Option<String>,
    pub name: Option<String>,
}

/// A program whose windows are looked for.
#[derive(Debug)]
pub struct AppInfo {
    pub pid: i32,
    pub bundle_id: String,
    pub name: String,
}

/// A program as a mathematical value.
pub struct App {
    pub pid: i32,
    pub bundle_id: Seq<char>,
    pub name: Seq<char>,
}

impl View for AppInfo {
    type V = App;

    open spec fn view(&self) -> App {
        App { pid: self.pid, bundle_id: self.bundle_id@, name: self.name@ }
    }
}

pub open spec fn app_views(s: Seq<AppInfo>) -> Seq<App> {
    Seq::new(s.len(), |i: int| s[i]@)
}

/// The programs whose windows are looked for: ordinary ones that have an
/// identifier and a name.
pub open spec fn regular_apps(apps: Seq<RunningApp>) -> Seq<App>
    decreases apps.len(),
{
    if apps.len() == 0 {
        seq![]
    } else {
        let before = regular_apps(apps.drop_last());
        let app = apps.last();
        match (opt_view(app.bundle_id), opt_view(app.name)) {
            (Some(bundle_id), Some(name)) if app.is_regular => before.push(
                App { pid: app.pid, bundle_id, name },
            ),
            _ => before,
        }
    }
}

pub fn discover_applications(apps: &Vec<RunningApp>) -> (r: Vec<AppInfo>)
    ensures
        app_views(r@) == regular_apps(apps@),
{
    let mut found: Vec<AppInfo> = Vec::new();
    let mut i: usize = 0;
    assert(app_views(found@) =~= regular_apps(apps@.take(0)));
    while i < apps.len()
        invariant
            i <= apps@.len(),
            app_views(found@) == regular_apps(apps@.take(i as int)),
        decreases apps.len() - i,
    {
        let ghost before = app_views(found@);
        assert(apps@.take(i + 1).drop_last() =~= apps@.take(i as int));
        let app = &apps[i];
        if app.is_regular {
            if let (Some(bundle_id), Some(name)) = (&app.bundle_id, &app.name) {
                let info = AppInfo {
                    pid: app.pid,
                    bundle_id: copy(bundle_id.as_str()),
                    name: copy(name.as_str()),
                };
                found.push(info);
                assert(app_views(found@) =~= before.push(info@));
            }
        }
        i = i + 1;
    }
    assert(apps@.take(apps@.len() as int) =~= apps@);
    found
}

/// What could be read of a window.
#[derive(Debug)]
pub struct WindowReading {
    pub id: Option<WindowId>,
    pub title: Option<String>,
    pub role: Option<String>,
    pub subrole: Option<String>,
    pub position: Option<(i64, i64)>,
    pub size: Option<(i64, i64)>,
}

/// A text, or none where there is nothing to read.
pub open spec fn text_or_none(text: Option<String>) -> Seq<char> {
    match text {
        Some(text) => text@,
        None => seq![],
    }
}

fn text_or_empty(text: &Option<String>) -> (r: String)
    ensures
        r@ == text_or_none(*text),
{
    match text {
        Some(text) => copy(text.as_str()),
        None => {
            let r = String::new();
            assert(r@ =~= Seq::<char>::empty());
            r
        },
    }
}

/// A window of a program, with nothing where nothing could be read.
pub open spec fn window_read(app: App, id: WindowId, window: WindowReading) -> NewWin {
    let (x, y) = match window.position {
        Some(p) => p,
        None => (0i64, 0i64),
    };
    let (width, height) = match window.size {
        Some(s) => s,
        None => (0i64, 0i64),
    };
    NewWin {
        id,
        app_pid: app.pid,
        app_name: app.name,
        app_bundle_id: app.bundle_id,
        title: text_or_none(window.title),
        role: text_or_none(window.role),
        subrole: text_or_none(window.subrole),
        x,
        y,
        width,
        height,
    }
}

/// The windows of a program that are managed: those of the right kind that
/// have a number.
pub open spec fn managed_windows(app: App, windows: Seq<WindowReading>) -> Seq<NewWin>
    decreases windows.len(),
{
    if windows.len() == 0 {
        seq![]
    } else {
        let before = managed_windows(app, windows.drop_last());
        let window = windows.last();
        match window.id {
            Some(id) if manageable(opt_view(window.role), opt_view(window.subrole)) => before.push(
                window_read(app, id, window),
            ),
            _ => before,
        }
    }
}

pub fn enumerate_windows(app: &AppInfo, windows: &Vec<WindowReading>) -> (r: Vec<NewWindow>)
    ensures
        new_views(r@) == managed_windows(app@, windows@),
{
    let mut found: Vec<NewWindow> = Vec::new();
    let mut i: usize = 0;
    assert(new_views(found@) =~= managed_windows(app@, windows@.take(0)));
    while i < windows.len()
        invariant
            i <= windows@.len(),
            new_views(found@) == managed_windows(app@, windows@.take(i as int)),
        decreases windows.len() - i,
    {
        let ghost before = new_views(found@);
        assert(windows@.take(i + 1).drop_last() =~= windows@.take(i as int));
        let window = &windows[i];
        if is_manageable_window(&window.role, &window.subrole) {
            if let Some(id) = window.id {
                let (x, y): (i64, i64) = match window.position {
                    Some(p) => p,
                    None => (0, 0),
                };
                let (width, height): (i64, i64) = match window.size {
                    Some(s) => s,
                    None => (0, 0),
                };
                let new = NewWindow {
                    id,
                    app_pid: app.pid,
                    app_name: copy(app.name.as_str()),
                    app_bundle_id: copy(app.bundle_id.as_str()),
                    title: text_or_empty(&window.title),
                    role: text_or_empty(&window.role),
                    subrole: text_or_empty(&window.subrole),
                    x,
                    y,
                    width,
                    height,
                };
                assert(new@ == window_read(app@, id, *window));
                found.push(new);
                assert(new_views(found@) =~= before.push(new@));
            }
        }
        i = i + 1;
    }
    assert(windows@.take(windows@.len() as int) =~= windows@);
    found
}

} // verus!
