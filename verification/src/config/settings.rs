//! Settings that hold while the manager runs.
use vstd::prelude::*;
use crate::config::numbers::{parse_thousandths, thousandths};
use crate::text::{copy, same};
use crate::wm::input::{Modifiers, COMMAND_BIT, CONTROL_BIT, OPTION_BIT};

verus! {

/// What a user can set.
#[derive(Debug)]
pub struct Settings {
    pub gap_inner: i64,
    pub gap_outer: i64,
    pub focus_follows_mouse: bool,
    pub mouse_follows_focus: bool,
    pub mod_key: Modifiers,
    pub terminal_command: String,
    /// Height of a bar at the top of each display that is not the system's own.
    pub bar_height: i64,
    /// Width of the borders; none are drawn if it is 0.
    pub border_width: i64,
    /// Colour of the border of the focused window, as `#RRGGBB`.
    pub border_color_focused: String,
    /// Colour of the other borders, as `#RRGGBB`.
    pub border_color_unfocused: String,
    pub border_radius: i64,
}

/// Settings as a mathematical value.
pub struct Setup {
    pub gap_inner: i64,
    pub gap_outer: i64,
    pub focus_follows_mouse: bool,
    pub mouse_follows_focus: bool,
    pub mod_key: Modifiers,
    pub terminal_command: Seq<char>,
    pub bar_height: i64,
    pub border_width: i64,
    pub border_color_focused: Seq<char>,
    pub border_color_unfocused: Seq<char>,
    pub border_radius: i64,
}

impl View for Settings {
    type V = Setup;

    open spec fn view(&self) -> Setup {
        Setup {
            gap_inner: self.gap_inner,
            gap_outer: self.gap_outer,
            focus_follows_mouse: self.focus_follows_mouse,
            mouse_follows_focus: self.mouse_follows_focus,
            mod_key: self.mod_key,
            terminal_command: self.terminal_command@,
            bar_height: self.bar_height,
            border_width: self.border_width,
            border_color_focused: self.border_color_focused@,
            border_color_unfocused: self.border_color_unfocused@,
            border_radius: self.border_radius,
        }
    }
}

impl Clone for Settings {
    fn clone(&self) -> (r: Self)
        ensures
            r@ == self@,
    {
        Settings {
            gap_inner: self.gap_inner,
            gap_outer: self.gap_outer,
            focus_follows_mouse: self.focus_follows_mouse,
            mouse_follows_focus: self.mouse_follows_focus,
            mod_key: self.mod_key,
            terminal_command: copy(self.terminal_command.as_str()),
            bar_height: self.bar_height,
            border_width: self.border_width,
            border_color_focused: copy(self.border_color_focused.as_str()),
            border_color_unfocused: copy(self.border_color_unfocused.as_str()),
            border_radius: self.border_radius,
        }
    }
}

/// A number that a text gives, or else the one that was there.
pub open spec fn number_or(value: Seq<char>, before: i64) -> i64 {
    match thousandths(value) {
        Some(v) => v,
        None => before,
    }
}

/// The main modifier that a text names, or else the one that was there.
pub open spec fn modifier_or(value: Seq<char>, before: Modifiers) -> Modifiers {
    if value == "command"@ || value == "cmd"@ {
        Modifiers { bits: COMMAND_BIT }
    } else if value == "option"@ || value == "alt"@ {
        Modifiers { bits: OPTION_BIT }
    } else if value == "control"@ || value == "ctrl"@ {
        Modifiers { bits: CONTROL_BIT }
    } else {
        before
    }
}

impl Setup {
    /// What holds if nothing is set.
    pub open spec fn standard() -> Setup {
        Setup {
            gap_inner: 0,
            gap_outer: 0,
            focus_follows_mouse: true,
            mouse_follows_focus: true,
            mod_key: Modifiers { bits: COMMAND_BIT },
            terminal_command: "open -na WezTerm"@,
            bar_height: 0,
            border_width: 0,
            border_color_focused: "#5294e2"@,
            border_color_unfocused: "#2d2d2d"@,
            border_radius: 10_000,
        }
    }

    /// One setting changes. A number that cannot be read, a modifier that does
    /// not exist and a setting that is not known change nothing.
    pub open spec fn with_setting(self, key: Seq<char>, value: Seq<char>) -> Setup {
        if key == "gap_inner"@ {
            Setup { gap_inner: number_or(value, self.gap_inner), ..self }
        } else if key == "gap_outer"@ {
            Setup { gap_outer: number_or(value, self.gap_outer), ..self }
        } else if key == "focus_follows_mouse"@ {
            Setup { focus_follows_mouse: value == "true"@, ..self }
        } else if key == "mouse_follows_focus"@ {
            Setup { mouse_follows_focus: value == "true"@, ..self }
        } else if key == "mod_key"@ {
            Setup { mod_key: modifier_or(value, self.mod_key), ..self }
        } else if key == "terminal"@ {
            Setup { terminal_command: value, ..self }
        } else if key == "bar_height"@ {
            Setup { bar_height: number_or(value, self.bar_height), ..self }
        } else if key == "border_width"@ {
            Setup { border_width: number_or(value, self.border_width), ..self }
        } else if key == "border_color_focused"@ {
            Setup { border_color_focused: value, ..self }
        } else if key == "border_color_unfocused"@ {
            Setup { border_color_unfocused: value, ..self }
        } else if key == "border_radius"@ {
            Setup { border_radius: number_or(value, self.border_radius), ..self }
        } else {
            self
        }
    }
}

fn read_number(value: &str, before: i64) -> (r: i64)
    ensures
        r == number_or(value@, before),
{
    match parse_thousandths(value) {
        Some(v) => v,
        None => before,
    }
}

fn read_modifier(value: &str, before: Modifiers) -> (r: Modifiers)
    ensures
        r == modifier_or(value@, before),
{
    if same(value, "command") || same(value, "cmd") {
        Modifiers::command()
    } else if same(value, "option") || same(value, "alt") {
        Modifiers::option()
    } else if same(value, "control") || same(value, "ctrl") {
        Modifiers::control()
    } else {
        before
    }
}

impl Default for Settings {
    fn default() -> (r: Self)
        ensures
            r@ == Setup::standard(),
    {
        Settings {
            gap_inner: 0,
            gap_outer: 0,
            focus_follows_mouse: true,
            mouse_follows_focus: true,
            mod_key: Modifiers::command(),
            terminal_command: copy("open -na WezTerm"),
            bar_height: 0,
            border_width: 0,
            border_color_focused: copy("#5294e2"),
            border_color_unfocused: copy("#2d2d2d"),
            border_radius: 10_000,
        }
    }
}

impl Settings {
    /// Changes one setting.
    pub fn set(&mut self, key: &str, value: &str)
        ensures
            final(self)@ == old(self)@.with_setting(key@, value@),
    {
        if same(key, "gap_inner") {
            self.gap_inner = read_number(value, self.gap_inner);
        } else if same(key, "gap_outer") {
            self.gap_outer = read_number(value, self.gap_outer);
        } else if same(key, "focus_follows_mouse") {
            self.focus_follows_mouse = same(value, "true");
        } else if same(key, "mouse_follows_focus") {
            self.mouse_follows_focus = same(value, "true");
        } else if same(key, "mod_key") {
            self.mod_key = read_modifier(value, self.mod_key);
        } else if same(key, "terminal") {
            self.terminal_command = copy(value);
        } else if same(key, "bar_height") {
            self.bar_height = read_number(value, self.bar_height);
        } else if same(key, "border_width") {
            self.border_width = read_number(value, self.border_width);
        } else if same(key, "border_color_focused") {
            self.border_color_focused = copy(value);
        } else if same(key, "border_color_unfocused") {
            self.border_color_unfocused = copy(value);
        } else if same(key, "border_radius") {
            self.border_radius = read_number(value, self.border_radius);
        }
    }
}

} // verus!
