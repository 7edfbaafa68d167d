//! How special workspaces are laid over the screen.
use vstd::prelude::*;
use crate::text::copy;

verus! {

/// Place and size of a special workspace on the screen.
#[derive(Debug, PartialEq)]
pub struct SpecialWorkspaceConfig {
    pub name: String,
    /// "center", "top" or "bottom".
    pub position: String,
    /// Thousandths of the width of the screen.
    pub width: i64,
    /// Thousandths of the height of the screen.
    pub height: i64,
}

/// Place and size of a special workspace, as a mathematical value.
pub struct Overlay {
    pub name: Seq<char>,
    pub position: Seq<char>,
    pub width: i64,
    pub height: i64,
}

impl View for SpecialWorkspaceConfig {
    type V = Overlay;

    open spec fn view(&self) -> Overlay {
        Overlay {
            name: self.name@,
            position: self.position@,
            width: self.width,
            height: self.height,
        }
    }
}

impl Clone for SpecialWorkspaceConfig {
    fn clone(&self) -> (r: Self)
        ensures
            r@ == self@,
    {
        SpecialWorkspaceConfig {
            name: copy(self.name.as_str()),
            position: copy(self.position.as_str()),
            width: self.width,
            height: self.height,
        }
    }
}

/// In the centre, seven tenths of the screen each way.
pub open spec fn default_overlay(name: Seq<char>) -> Overlay {
    Overlay { name, position: "center"@, width: 700, height: 700 }
}

/// Tells the overlay of a name.
pub open spec fn is_overlay_of(name: Seq<char>) -> spec_fn(Overlay) -> bool {
    |o: Overlay| o.name == name
}

pub open spec fn overlay_views(s: Seq<SpecialWorkspaceConfig>) -> Seq<Overlay> {
    Seq::new(s.len(), |i: int| s[i]@)
}

impl SpecialWorkspaceConfig {
    pub fn default_for(name: &str) -> (r: Self)
        ensures
            r@ == default_overlay(name@),
    {
        SpecialWorkspaceConfig {
            name: copy(name),
            position: copy("center"),
            width: 700,
            height: 700,
        }
    }
}

} // verus!
