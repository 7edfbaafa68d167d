//! Windows known to the manager.
use vstd::prelude::*;
use crate::seqs::{
    first_where, is_first_where, lemma_first_where, lemma_first_where_found, lemma_first_where_none,
};
use crate::text::copy;

verus! {

/// Identifies a window.
pub type WindowId = u32;

/// What is known of a window.
#[derive(Debug)]
pub struct WindowState {
    pub id: WindowId,
    pub app_pid: i32,
    pub app_name: String,
    pub app_bundle_id: String,
    pub title: String,
    pub role: String,
    pub subrole: String,
    pub x: i64,
    pub y: i64,
    pub width: i64,
    pub height: i64,
    pub floating: bool,
    pub minimized: bool,
}

/// What is known of a window, as a mathematical value.
pub struct Win {
    pub id: WindowId,
    pub app_pid: i32,
    pub app_name: Seq<char>,
    pub app_bundle_id: Seq<char>,
    pub title: Seq<char>,
    pub role: Seq<char>,
    pub subrole: Seq<char>,
    pub x: i64,
    pub y: i64,
    pub width: i64,
    pub height: i64,
    pub floating: bool,
    pub minimized: bool,
}

impl View for WindowState {
    type V = Win;

    open spec fn view(&self) -> Win {
        Win {
            id: self.id,
            app_pid: self.app_pid,
            app_name: self.app_name@,
            app_bundle_id: self.app_bundle_id@,
            title: self.title@,
            role: self.role@,
            subrole: self.subrole@,
            x: self.x,
            y: self.y,
            width: self.width,
            height: self.height,
            floating: self.floating,
            minimized: self.minimized,
        }
    }
}

impl Clone for WindowState {
    fn clone(&self) -> (r: Self)
        ensures
            r@ == self@,
    {
        WindowState {
            id: self.id,
            app_pid: self.app_pid,
            app_name: copy(self.app_name.as_str()),
            app_bundle_id: copy(self.app_bundle_id.as_str()),
            title: copy(self.title.as_str()),
            role: copy(self.role.as_str()),
            subrole: copy(self.subrole.as_str()),
            x: self.x,
            y: self.y,
            width: self.width,
            height: self.height,
            floating: self.floating,
            minimized: self.minimized,
        }
    }
}

/// Tells the window of a number.
pub open spec fn has_id(id: WindowId) -> spec_fn(Win) -> bool {
    |w: Win| w.id == id
}

/// Tells the windows of an application.
pub open spec fn of_app(pid: i32) -> spec_fn(Win) -> bool {
    |w: Win| w.app_pid == pid
}

/// Tells the windows of other applications.
pub open spec fn of_other_app(pid: i32) -> spec_fn(Win) -> bool {
    |w: Win| w.app_pid != pid
}

/// The window of a number, if it is known.
pub open spec fn window_of(s: Seq<Win>, id: WindowId) -> Option<Win> {
    match first_where(s, has_id(id)) {
        Some(i) => Some(s[i]),
        None => None,
    }
}

/// Whether a window is known.
pub open spec fn knows(s: Seq<Win>, id: WindowId) -> bool {
    window_of(s, id) is Some
}

/// The known windows with one more, in place of one with the same number.
pub open spec fn with_window(s: Seq<Win>, w: Win) -> Seq<Win> {
    match first_where(s, has_id(w.id)) {
        Some(i) => s.update(i, w),
        None => s.push(w),
    }
}

/// The known windows without one.
pub open spec fn without_window(s: Seq<Win>, id: WindowId) -> Seq<Win> {
    match first_where(s, has_id(id)) {
        Some(i) => s.remove(i),
        None => s,
    }
}

/// The known windows with a new value for one.
pub open spec fn with_changed(s: Seq<Win>, id: WindowId, w: Win) -> Seq<Win> {
    match first_where(s, has_id(id)) {
        Some(i) => s.update(i, w),
        None => s,
    }
}

/// No two windows have the same number.
pub open spec fn distinct_ids(s: Seq<Win>) -> bool {
    forall|i: int, j: int|
        0 <= i < s.len() && 0 <= j < s.len() && i != j ==> (#[trigger] s[i]).id
            != (#[trigger] s[j]).id
}

/// All known windows, each number once.
#[derive(Debug)]
pub struct WindowRegistry {
    pub windows: Vec<WindowState>,
}

impl View for WindowRegistry {
    type V = Seq<Win>;

    open spec fn view(&self) -> Seq<Win> {
        Seq::new(self.windows@.len(), |i: int| self.windows@[i]@)
    }
}

impl Default for WindowRegistry {
    fn default() -> (r: Self)
        ensures
            r@ == Seq::<Win>::empty(),
    {
        WindowRegistry::new()
    }
}

impl WindowRegistry {
    pub fn new() -> (r: Self)
        ensures
            r@ == Seq::<Win>::empty(),
    {
        let r = WindowRegistry { windows: Vec::new() };
        assert(r@ =~= Seq::<Win>::empty());
        r
    }

    fn index(&self, id: WindowId) -> (r: Option<usize>)
        ensures
            match r {
                Some(i) => first_where(self@, has_id(id)) == Some(i as int) && i < self@.len()
                    && self@[i as int].id == id,
                None => first_where(self@, has_id(id)) is None,
            },
    {
        let ghost p = has_id(id);
        let mut i: usize = 0;
        while i < self.windows.len()
            invariant
                p == has_id(id),
                i <= self@.len(),
                self@.len() == self.windows@.len(),
                forall|j: int| 0 <= j < i ==> !p(#[trigger] self@[j]),
            decreases self.windows.len() - i,
        {
            if self.windows[i].id == id {
                proof {
                    lemma_first_where(self@, p, i as int);
                }
                return Some(i);
            }
            i = i + 1;
        }
        proof {
            lemma_first_where_none(self@, p);
        }
        None
    }

    /// Adds a window, in place of one with the same number.
    pub fn add(&mut self, window: WindowState)
        ensures
            final(self)@ == with_window(old(self)@, window@),
    {
        match self.index(window.id) {
            Some(i) => {
                self.windows[i] = window;
                assert(self@ =~= old(self)@.update(i as int, window@));
            },
            None => {
                self.windows.push(window);
                assert(self@ =~= old(self)@.push(window@));
            },
        }
    }

    pub fn remove(&mut self, id: WindowId) -> (r: Option<WindowState>)
        ensures
            final(self)@ == without_window(old(self)@, id),
            match r {
                Some(w) => window_of(old(self)@, id) == Some(w@),
                None => !knows(old(self)@, id),
            },
    {
        match self.index(id) {
            Some(i) => {
                let w = self.windows.remove(i);
                assert(self@ =~= old(self)@.remove(i as int));
                Some(w)
            },
            None => None,
        }
    }

    pub fn get(&self, id: WindowId) -> (r: Option<&WindowState>)
        ensures
            match r {
                Some(w) => window_of(self@, id) == Some(w@),
                None => !knows(self@, id),
            },
    {
        match self.index(id) {
            Some(i) => Some(&self.windows[i]),
            None => None,
        }
    }

    pub fn get_mut(&mut self, id: WindowId) -> (r: Option<&mut WindowState>)
        ensures
            match r {
                Some(w) => window_of(old(self)@, id) == Some(w@) && final(self)@ == with_changed(
                    old(self)@,
                    id,
                    final(w)@,
                ),
                None => !knows(old(self)@, id) && final(self)@ == old(self)@,
            },
    {
        match self.index(id) {
            Some(i) => Some(&mut self.windows[i]),
            None => None,
        }
    }

    pub fn contains(&self, id: WindowId) -> (r: bool)
        ensures
            r == knows(self@, id),
    {
        self.index(id).is_some()
    }

    pub fn count(&self) -> (r: usize)
        ensures
            r == self@.len(),
    {
        self.windows.len()
    }

    /// All windows, in the order in which they were added.
    pub fn all(&self) -> (r: &Vec<WindowState>)
        ensures
            r@ == self.windows@,
    {
        &self.windows
    }

    /// Whether any window belongs to an application.
    pub fn has_app(&self, pid: i32) -> (r: bool)
        ensures
            r == (exists|i: int| 0 <= i < self@.len() && (#[trigger] self@[i]).app_pid == pid),
    {
        let mut i: usize = 0;
        while i < self.windows.len()
            invariant
                i <= self@.len(),
                self@.len() == self.windows@.len(),
                forall|j: int| 0 <= j < i ==> (#[trigger] self@[j]).app_pid != pid,
            decreases self.windows.len() - i,
        {
            if self.windows[i].app_pid == pid {
                assert(self@[i as int].app_pid == pid);
                return true;
            }
            i = i + 1;
        }
        false
    }

    /// Removes and returns all windows of an application.
    pub fn remove_by_pid(&mut self, pid: i32) -> (r: Vec<WindowState>)
        ensures
            final(self)@ == old(self)@.filter(of_other_app(pid)),
            Seq::new(r@.len(), |i: int| r@[i]@) == old(self)@.filter(of_app(pid)),
    {
        let mut rest: Vec<WindowState> = Vec::new();
        let mut removed: Vec<WindowState> = Vec::new();
        let mut kept: Vec<WindowState> = Vec::new();
        std::mem::swap(&mut self.windows, &mut rest);
        let ghost all = old(self)@;
        let ghost p = of_app(pid);
        let ghost q = of_other_app(pid);
        let mut i: usize = 0;
        while i < rest.len()
            invariant
                p == of_app(pid),
                q == of_other_app(pid),
                all == Seq::new(rest@.len(), |i: int| rest@[i]@),
                i <= rest@.len(),
                Seq::new(removed@.len(), |i: int| removed@[i]@) == all.take(i as int).filter(p),
                Seq::new(kept@.len(), |i: int| kept@[i]@) == all.take(i as int).filter(q),
            decreases rest.len() - i,
        {
            proof {
                assert(all.take(i + 1).drop_last() =~= all.take(i as int));
                assert(all.take(i + 1).last() == rest@[i as int]@);
                reveal(Seq::filter);
            }
            let w: WindowState = rest[i].clone();
            if w.app_pid == pid {
                let ghost before = Seq::new(removed@.len(), |i: int| removed@[i]@);
                removed.push(w);
                assert(Seq::new(removed@.len(), |i: int| removed@[i]@) =~= before.push(w@));
            } else {
                let ghost before = Seq::new(kept@.len(), |i: int| kept@[i]@);
                kept.push(w);
                assert(Seq::new(kept@.len(), |i: int| kept@[i]@) =~= before.push(w@));
            }
            i = i + 1;
        }
        assert(all.take(all.len() as int) =~= all);
        self.windows = kept;
        removed
    }

    /// Changes the place and the size of a window.
    pub fn update_geometry(&mut self, id: WindowId, x: i64, y: i64, width: i64, height: i64)
        ensures
            final(self)@ == (match window_of(old(self)@, id) {
                Some(w) => with_changed(old(self)@, id, Win { x, y, width, height, ..w }),
                None => old(self)@,
            }),
    {
        if let Some(w) = self.get_mut(id) {
            w.x = x;
            w.y = y;
            w.width = width;
            w.height = height;
        }
    }

    /// Changes the title of a window.
    pub fn update_title(&mut self, id: WindowId, title: String)
        ensures
            final(self)@ == (match window_of(old(self)@, id) {
                Some(w) => with_changed(old(self)@, id, Win { title: title@, ..w }),
                None => old(self)@,
            }),
    {
        if let Some(w) = self.get_mut(id) {
            w.title = title;
        }
    }

    /// Changes whether a window is minimized.
    pub fn set_minimized(&mut self, id: WindowId, minimized: bool)
        ensures
            final(self)@ == (match window_of(old(self)@, id) {
                Some(w) => with_changed(old(self)@, id, Win { minimized, ..w }),
                None => old(self)@,
            }),
    {
        if let Some(w) = self.get_mut(id) {
            w.minimized = minimized;
        }
    }
}

/// A window that was added is found with its values, and the others stay.
pub proof fn law_added_window_is_found(s: Seq<Win>, w: Win, other: WindowId)
    requires
        other != w.id,
    ensures
        window_of(with_window(s, w), w.id) == Some(w),
        window_of(with_window(s, w), other) == window_of(s, other),
{
    let t = with_window(s, w);
    let p = has_id(w.id);
    let q = has_id(other);
    lemma_first_where_found(s, p);
    lemma_first_where_found(s, q);
    match first_where(s, p) {
        Some(i) => {
            assert(is_first_where(t, p, i));
            lemma_first_where(t, p, i);
        },
        None => {
            assert(is_first_where(t, p, s.len() as int)) by {
                assert forall|j: int| 0 <= j < s.len() implies !p(#[trigger] t[j]) by {
                    assert(t[j] == s[j]);
                }
            }
            lemma_first_where(t, p, s.len() as int);
        },
    }
    match first_where(s, q) {
        Some(k) => {
            assert(is_first_where(t, q, k)) by {
                assert forall|j: int| 0 <= j < k implies !q(#[trigger] t[j]) by {
                    assert(!q(s[j]));
                }
            }
            lemma_first_where(t, q, k);
        },
        None => {
            assert forall|j: int| 0 <= j < t.len() implies !q(#[trigger] t[j]) by {
                if j < s.len() {
                    assert(!q(s[j]));
                }
            }
            lemma_first_where_none(t, q);
        },
    }
}

/// Adding and removing keep the numbers distinct, and a removed window is not
/// known any more.
pub proof fn law_registry_stays_distinct(s: Seq<Win>, w: Win, id: WindowId)
    requires
        distinct_ids(s),
    ensures
        distinct_ids(with_window(s, w)),
        distinct_ids(without_window(s, id)),
        !knows(without_window(s, id), id),
{
    lemma_first_where_found(s, has_id(w.id));
    lemma_first_where_found(s, has_id(id));
    let t = without_window(s, id);
    match first_where(s, has_id(w.id)) {
        Some(i) => {},
        None => {
            assert forall|j: int| 0 <= j < s.len() implies (#[trigger] s[j]).id != w.id by {
                assert(!has_id(w.id)(s[j]));
            }
        },
    }
    match first_where(s, has_id(id)) {
        Some(i) => {
            assert forall|a: int| 0 <= a < t.len() implies #[trigger] t[a] == s[if a < i {
                a
            } else {
                a + 1
            }] by {}
            assert forall|j: int| 0 <= j < t.len() implies !has_id(id)(#[trigger] t[j]) by {
                let k = if j < i { j } else { j + 1 };
                assert(s[k].id != s[i].id);
            }
            lemma_first_where_none(t, has_id(id));
        },
        None => {},
    }
}

} // verus!
