//! The binary split tree that tiles windows over a rectangle.
use vstd::prelude::*;
use crate::seqs::{copy_u32, position, position_u32};
use crate::wm::geometry::{
    fit, fit_i64, Direction, Rect, SplitDirection, HALF, RATIO_MAX, RATIO_MIN,
    STACK_REVEAL_OFFSET_X, STACK_REVEAL_OFFSET_Y,
};
use crate::wm::window::WindowId;

verus! {

/// A node of the tree.
#[derive(Debug, PartialEq)]
pub enum Node {
    /// A rectangle divided between two children; the first one gets `ratio`
    /// thousandths of it.
    Internal { split: SplitDirection, ratio: i64, left: Box<Node>, right: Box<Node> },
    /// Windows on top of each other, and the subtree that they replaced.
    Stack { windows: Vec<WindowId>, active: usize, previous: Box<Node> },
    /// One slot, empty or with a window.
    Leaf { window: Option<WindowId> },
}

/// What a node is, as a mathematical value.
pub enum Tree {
    Internal { split: SplitDirection, ratio: i64, left: Box<Tree>, right: Box<Tree> },
    Stack { windows: Seq<WindowId>, active: int, previous: Box<Tree> },
    Leaf { window: Option<WindowId> },
}

impl View for Node {
    type V = Tree;

    open spec fn view(&self) -> Tree {
        self.tree()
    }
}

/// The direction in which a rectangle is split: side by side where it is wider
/// than tall, one above the other otherwise.
pub open spec fn smart_split(rect: Rect) -> SplitDirection {
    if rect.width > rect.height {
        SplitDirection::Vertical
    } else {
        SplitDirection::Horizontal
    }
}

/// Where a new window goes in a stack: behind `target` if the stack holds it,
/// else behind the active window.
pub open spec fn stack_slot(windows: Seq<WindowId>, active: int, target: Option<WindowId>) -> int {
    if target is Some && windows.contains(target->0) {
        position(windows, target->0)->0 + 1
    } else if active + 1 < windows.len() {
        active + 1
    } else {
        windows.len() as int
    }
}

impl Tree {
    pub open spec fn empty() -> Tree {
        Tree::Leaf { window: None }
    }

    pub open spec fn leaf(w: WindowId) -> Tree {
        Tree::Leaf { window: Some(w) }
    }

    /// The windows from left to right and from top to bottom.
    pub open spec fn windows(self) -> Seq<WindowId>
        decreases self,
    {
        match self {
            Tree::Leaf { window: Some(w) } => seq![w],
            Tree::Leaf { window: None } => seq![],
            Tree::Stack { windows, .. } => windows,
            Tree::Internal { left, right, .. } => left.windows() + right.windows(),
        }
    }

    /// How many places on the screen the tree fills; a stack fills one.
    pub open spec fn slots(self) -> nat
        decreases self,
    {
        match self {
            Tree::Leaf { window: Some(w) } => 1,
            Tree::Leaf { window: None } => 0,
            Tree::Stack { windows, .. } => if windows.len() > 0 { 1 } else { 0 },
            Tree::Internal { left, right, .. } => left.slots() + right.slots(),
        }
    }

    /// The window that stands for the tree: the first one, the active one of a
    /// stack.
    pub open spec fn first(self) -> Option<WindowId>
        decreases self,
    {
        match self {
            Tree::Leaf { window } => window,
            Tree::Stack { windows, active, .. } => if 0 <= active < windows.len() {
                Some(windows[active])
            } else if windows.len() > 0 {
                Some(windows[0])
            } else {
                None
            },
            Tree::Internal { left, right, .. } => match left.first() {
                Some(w) => Some(w),
                None => right.first(),
            },
        }
    }

    /// The tree after a new window was placed next to `target`.
    pub open spec fn inserted(self, new: WindowId, target: Option<WindowId>, rect: Rect) -> Tree
        decreases self,
    {
        match self {
            Tree::Leaf { window: None } => Tree::leaf(new),
            Tree::Leaf { window: Some(w) } => Tree::Internal {
                split: smart_split(rect),
                ratio: HALF,
                left: Box::new(Tree::leaf(w)),
                right: Box::new(Tree::leaf(new)),
            },
            Tree::Internal { split, ratio, left, right } => {
                let parts = rect.parts(split, ratio);
                if target is Some && left.windows().contains(target->0) {
                    Tree::Internal {
                        split,
                        ratio,
                        left: Box::new(left.inserted(new, target, parts.0)),
                        right,
                    }
                } else {
                    let below = if target is Some && right.windows().contains(target->0) {
                        target
                    } else {
                        None
                    };
                    Tree::Internal {
                        split,
                        ratio,
                        left,
                        right: Box::new(right.inserted(new, below, parts.1)),
                    }
                }
            },
            Tree::Stack { windows, active, previous } => {
                let at = stack_slot(windows, active, target);
                Tree::Stack {
                    windows: windows.insert(at, new),
                    active: at,
                    previous: Box::new(previous.inserted(new, target, rect)),
                }
            },
        }
    }

    /// The tree without the first occurrence of `w`; a split with an emptied
    /// side gives way to its other side, a stack of one to a leaf.
    pub open spec fn removed(self, w: WindowId) -> Tree
        decreases self,
    {
        match self {
            Tree::Leaf { window } => if window == Some(w) {
                Tree::empty()
            } else {
                self
            },
            Tree::Stack { windows, active, previous } => if !windows.contains(w) {
                self
            } else {
                let idx = position(windows, w)->0;
                let rest = windows.remove(idx);
                if rest.len() == 0 {
                    Tree::empty()
                } else if rest.len() == 1 {
                    Tree::leaf(rest[0])
                } else {
                    Tree::Stack {
                        windows: rest,
                        active: if active >= rest.len() {
                            rest.len() - 1
                        } else if idx < active {
                            active - 1
                        } else {
                            active
                        },
                        previous: Box::new(previous.removed(w)),
                    }
                }
            },
            Tree::Internal { split, ratio, left, right } => if left.windows().contains(w) {
                let l = left.removed(w);
                if l == Tree::empty() {
                    *right
                } else {
                    Tree::Internal { split, ratio, left: Box::new(l), right }
                }
            } else if right.windows().contains(w) {
                let r = right.removed(w);
                if r == Tree::empty() {
                    *left
                } else {
                    Tree::Internal { split, ratio, left, right: Box::new(r) }
                }
            } else {
                self
            },
        }
    }

    /// The shape that all operations keep: no empty side of a split, ratios
    /// in the range of resizing, stacks of at least two with an active member
    /// and the same windows as the subtree they replaced.
    pub open spec fn wf(self) -> bool
        decreases self,
    {
        match self {
            Tree::Leaf { .. } => true,
            Tree::Stack { windows, active, previous } => {
                &&& windows.len() >= 2
                &&& 0 <= active < windows.len()
                &&& previous.wf()
                &&& previous.windows().to_multiset() == windows.to_multiset()
            },
            Tree::Internal { ratio, left, right, .. } => {
                &&& RATIO_MIN <= ratio <= RATIO_MAX
                &&& left.wf()
                &&& right.wf()
                &&& left.windows().len() > 0
                &&& right.windows().len() > 0
            },
        }
    }

    /// Well-formed, and no window occurs twice.
    pub open spec fn valid(self) -> bool {
        self.wf() && self.windows().no_duplicates()
    }

    /// Whether `w` is in a stack of the tree.
    pub open spec fn in_stack(self, w: WindowId) -> bool
        decreases self,
    {
        match self {
            Tree::Leaf { .. } => false,
            Tree::Stack { windows, .. } => windows.contains(w),
            Tree::Internal { left, right, .. } => left.in_stack(w) || right.in_stack(w),
        }
    }

    /// The members and the active index of the stack that holds `w`.
    pub open spec fn stack_of(self, w: WindowId) -> Option<(Seq<WindowId>, int)>
        decreases self,
    {
        match self {
            Tree::Leaf { .. } => None,
            Tree::Stack { windows, active, .. } => if windows.contains(w) {
                Some((windows, active))
            } else {
                None
            },
            Tree::Internal { left, right, .. } => if left.in_stack(w) {
                left.stack_of(w)
            } else {
                right.stack_of(w)
            },
        }
    }

    /// All ratios of the splits back to one half.
    pub open spec fn equalized(self) -> Tree
        decreases self,
    {
        match self {
            Tree::Internal { split, left, right, .. } => Tree::Internal {
                split,
                ratio: HALF,
                left: Box::new(left.equalized()),
                right: Box::new(right.equalized()),
            },
            _ => self,
        }
    }

    /// `a` and `b` trade places everywhere. A stack that holds both keeps its
    /// active window.
    pub open spec fn swapped(self, a: WindowId, b: WindowId) -> Tree
        decreases self,
    {
        match self {
            Tree::Leaf { window } => match window {
                Some(w) => Tree::leaf(exchange(w, a, b)),
                None => self,
            },
            Tree::Stack { windows, active, previous } => Tree::Stack {
                windows: exchange_all(windows, a, b),
                active: active_after_exchange(windows, active, a, b),
                previous: Box::new(previous.swapped(a, b)),
            },
            Tree::Internal { split, ratio, left, right } => Tree::Internal {
                split,
                ratio,
                left: Box::new(left.swapped(a, b)),
                right: Box::new(right.swapped(a, b)),
            },
        }
    }

    /// Whether a split along `direction` encloses `w`.
    pub open spec fn can_resize(self, w: WindowId, direction: Direction) -> bool
        decreases self,
    {
        match self {
            Tree::Internal { split, left, right, .. } => if left.windows().contains(w) {
                along(split, direction) || left.can_resize(w, direction)
            } else if right.windows().contains(w) {
                along(split, direction) || right.can_resize(w, direction)
            } else {
                false
            },
            _ => false,
        }
    }

    /// The outermost split along `direction` that encloses `w` moves by `delta`.
    pub open spec fn resized(self, w: WindowId, direction: Direction, delta: i64) -> Tree
        decreases self,
    {
        match self {
            Tree::Internal { split, ratio, left, right } => {
                let in_left = left.windows().contains(w);
                let in_right = right.windows().contains(w);
                if (in_left || in_right) && along(split, direction) {
                    Tree::Internal {
                        split,
                        ratio: moved_ratio(ratio, direction, in_left, delta),
                        left,
                        right,
                    }
                } else if in_left {
                    Tree::Internal {
                        split,
                        ratio,
                        left: Box::new(left.resized(w, direction, delta)),
                        right,
                    }
                } else if in_right {
                    Tree::Internal {
                        split,
                        ratio,
                        left,
                        right: Box::new(right.resized(w, direction, delta)),
                    }
                } else {
                    self
                }
            },
            _ => self,
        }
    }

    /// `w` becomes the active window of its stack.
    pub open spec fn activated(self, w: WindowId) -> Tree
        decreases self,
    {
        match self {
            Tree::Leaf { .. } => self,
            Tree::Stack { windows, active, previous } => if windows.contains(w) {
                Tree::Stack { windows, active: position(windows, w)->0, previous }
            } else {
                self
            },
            Tree::Internal { split, ratio, left, right } => if left.in_stack(w) {
                Tree::Internal { split, ratio, left: Box::new(left.activated(w)), right }
            } else {
                Tree::Internal { split, ratio, left, right: Box::new(right.activated(w)) }
            },
        }
    }

    /// The member next to the active one in the stack that holds `w`, if the
    /// stack goes on in that direction.
    pub open spec fn cycle_target(self, w: WindowId, forward: bool) -> Option<WindowId> {
        match self.stack_of(w) {
            None => None,
            Some((windows, active)) => {
                let next = if forward { active + 1 } else { active - 1 };
                if 0 <= next < windows.len() {
                    Some(windows[next])
                } else {
                    None
                }
            },
        }
    }

    /// The stack that holds `w` makes the neighbour of its active window active.
    pub open spec fn cycled(self, w: WindowId, forward: bool) -> Tree
        decreases self,
    {
        match self {
            Tree::Leaf { .. } => self,
            Tree::Stack { windows, active, previous } => {
                let next = if forward { active + 1 } else { active - 1 };
                if windows.contains(w) && 0 <= next < windows.len() {
                    Tree::Stack { windows, active: next, previous }
                } else {
                    self
                }
            },
            Tree::Internal { split, ratio, left, right } => if left.in_stack(w) {
                Tree::Internal { split, ratio, left: Box::new(left.cycled(w, forward)), right }
            } else {
                Tree::Internal { split, ratio, left, right: Box::new(right.cycled(w, forward)) }
            },
        }
    }

    /// Whether `w` has a neighbour in its stack in that direction.
    pub open spec fn can_reorder(self, w: WindowId, forward: bool) -> bool {
        match self.stack_of(w) {
            None => false,
            Some((windows, _)) => {
                let idx = position(windows, w)->0;
                if forward { idx + 1 < windows.len() } else { idx > 0 }
            },
        }
    }

    /// `w` trades places with its neighbour in its stack and becomes active.
    pub open spec fn reordered(self, w: WindowId, forward: bool) -> Tree
        decreases self,
    {
        match self {
            Tree::Leaf { .. } => self,
            Tree::Stack { windows, active, previous } => {
                let idx = position(windows, w)->0;
                let other = if forward { idx + 1 } else { idx - 1 };
                if windows.contains(w) && 0 <= other < windows.len() {
                    Tree::Stack {
                        windows: windows.update(idx, windows[other]).update(other, w),
                        active: other,
                        previous: Box::new(previous.swapped(w, windows[other])),
                    }
                } else {
                    self
                }
            },
            Tree::Internal { split, ratio, left, right } => if left.in_stack(w) {
                Tree::Internal { split, ratio, left: Box::new(left.reordered(w, forward)), right }
            } else {
                Tree::Internal { split, ratio, left, right: Box::new(right.reordered(w, forward)) }
            },
        }
    }

    /// `w` moves to the top of its stack and becomes active.
    pub open spec fn promoted(self, w: WindowId) -> Tree
        decreases self,
    {
        match self {
            Tree::Leaf { .. } => self,
            Tree::Stack { windows, active, previous } => if windows.contains(w) {
                Tree::Stack {
                    windows: windows.remove(position(windows, w)->0).insert(0, w),
                    active: 0,
                    previous,
                }
            } else {
                self
            },
            Tree::Internal { split, ratio, left, right } => if left.in_stack(w) {
                Tree::Internal { split, ratio, left: Box::new(left.promoted(w)), right }
            } else {
                Tree::Internal { split, ratio, left, right: Box::new(right.promoted(w)) }
            },
        }
    }

    /// The stack that holds `w` gives way to the subtree it had replaced.
    pub open spec fn unstacked(self, w: WindowId) -> Tree
        decreases self,
    {
        match self {
            Tree::Leaf { .. } => self,
            Tree::Stack { windows, previous, .. } => if windows.contains(w) {
                *previous
            } else {
                self
            },
            Tree::Internal { split, ratio, left, right } => if left.in_stack(w) {
                Tree::Internal { split, ratio, left: Box::new(left.unstacked(w)), right }
            } else {
                Tree::Internal { split, ratio, left, right: Box::new(right.unstacked(w)) }
            },
        }
    }

    /// Whether `w` stands in a split with another occupied slot.
    pub open spec fn can_stack(self, w: WindowId) -> bool {
        self is Internal && self.windows().contains(w) && self.slots() > 1
    }

    /// The smallest split around `w` with more than one occupied slot becomes
    /// a stack with `w` on top.
    pub open spec fn stacked(self, w: WindowId) -> Tree
        decreases self,
    {
        match self {
            Tree::Internal { split, ratio, left, right } => if left.windows().contains(w)
                && left.can_stack(w) {
                Tree::Internal { split, ratio, left: Box::new(left.stacked(w)), right }
            } else if !left.windows().contains(w) && right.can_stack(w) {
                Tree::Internal { split, ratio, left, right: Box::new(right.stacked(w)) }
            } else if self.can_stack(w) {
                Tree::Stack {
                    windows: self.windows(),
                    active: position(self.windows(), w)->0,
                    previous: Box::new(self),
                }
            } else {
                self
            },
            _ => self,
        }
    }

    /// The windows with their rectangles. A stack shows its active window over
    /// the whole rectangle and the others behind it, each a little further off.
    pub open spec fn geometries(
        self,
        rect: Rect,
        gap_inner: i64,
        gap_outer: i64,
        is_root: bool,
    ) -> Seq<(WindowId, Rect)>
        decreases self,
    {
        let padded = padded_root(rect, gap_outer, is_root);
        match self {
            Tree::Leaf { window: Some(w) } => seq![(w, padded)],
            Tree::Leaf { window: None } => seq![],
            Tree::Stack { windows, active, .. } => stack_geometries(windows, active, padded),
            Tree::Internal { split, ratio, left, right } => {
                let parts = gapped_parts(padded, split, ratio, gap_inner);
                left.geometries(parts.0, gap_inner, gap_outer, false) + right.geometries(
                    parts.1,
                    gap_inner,
                    gap_outer,
                    false,
                )
            },
        }
    }

    /// The windows that can take the focus by direction, with their
    /// rectangles: of a stack only the active one.
    pub open spec fn focus_geometries(
        self,
        rect: Rect,
        gap_inner: i64,
        gap_outer: i64,
        is_root: bool,
    ) -> Seq<(WindowId, Rect)>
        decreases self,
    {
        let padded = padded_root(rect, gap_outer, is_root);
        match self {
            Tree::Leaf { window: Some(w) } => seq![(w, padded)],
            Tree::Leaf { window: None } => seq![],
            Tree::Stack { windows, active, .. } => if 0 <= active < windows.len() {
                seq![(windows[active], padded)]
            } else {
                seq![]
            },
            Tree::Internal { split, ratio, left, right } => {
                let parts = gapped_parts(padded, split, ratio, gap_inner);
                left.focus_geometries(parts.0, gap_inner, gap_outer, false)
                    + right.focus_geometries(parts.1, gap_inner, gap_outer, false)
            },
        }
    }
}

/// `v`, or zero if it is negative.
pub open spec fn nonneg(v: int) -> int {
    if v < 0 {
        0
    } else {
        v
    }
}

/// A root rectangle less the outer gap on each side.
pub open spec fn padded_root(rect: Rect, gap_outer: i64, is_root: bool) -> Rect {
    if is_root && gap_outer > 0 {
        Rect {
            x: fit(rect.x + gap_outer),
            y: fit(rect.y + gap_outer),
            width: fit(nonneg(rect.width - 2 * gap_outer)),
            height: fit(nonneg(rect.height - 2 * gap_outer)),
        }
    } else {
        rect
    }
}

/// The two parts of a split, each set off from the other by half the gap.
pub open spec fn gapped_parts(
    rect: Rect,
    split: SplitDirection,
    ratio: i64,
    gap_inner: i64,
) -> (Rect, Rect) {
    let (first, second) = rect.parts(split, ratio);
    let half = gap_inner as int / 2;
    if gap_inner > 0 {
        match split {
            SplitDirection::Vertical => (
                Rect { width: fit(nonneg(first.width - half)), ..first },
                Rect {
                    x: fit(second.x + half),
                    width: fit(nonneg(second.width - half)),
                    ..second
                },
            ),
            SplitDirection::Horizontal => (
                Rect { height: fit(nonneg(first.height - half)), ..first },
                Rect {
                    y: fit(second.y + half),
                    height: fit(nonneg(second.height - half)),
                    ..second
                },
            ),
        }
    } else {
        (first, second)
    }
}

/// Background windows of a stack show to the left if more of them precede the
/// active window than follow it, else to the right.
pub open spec fn reveal_sign(count: int, active: int) -> int {
    let following = if count > active + 1 { count - (active + 1) } else { 0 };
    if active > following {
        -1
    } else {
        1
    }
}

/// The rectangle of the `depth`-th background window of a stack.
pub open spec fn revealed(rect: Rect, sign: int, depth: int) -> Rect {
    Rect {
        x: fit(rect.x + sign * STACK_REVEAL_OFFSET_X * depth),
        y: fit(rect.y + STACK_REVEAL_OFFSET_Y * depth),
        ..rect
    }
}

/// The members of a stack other than the active window, in order.
pub open spec fn stack_background(windows: Seq<WindowId>, active: int) -> Seq<WindowId> {
    windows.filter(|w: WindowId| !(0 <= active < windows.len() && w == windows[active]))
}

/// The rectangles of a stack: the background first, the active window last.
pub open spec fn stack_geometries(
    windows: Seq<WindowId>,
    active: int,
    rect: Rect,
) -> Seq<(WindowId, Rect)> {
    let sign = reveal_sign(windows.len() as int, active);
    let back = stack_background(windows, active);
    let behind = Seq::new(back.len(), |i: int| (back[i], revealed(rect, sign, i + 1)));
    if 0 <= active < windows.len() {
        behind.push((windows[active], rect))
    } else {
        behind
    }
}

/// `b` for `a`, `a` for `b`, and anything else for itself.
pub open spec fn exchange(w: WindowId, a: WindowId, b: WindowId) -> WindowId {
    if w == a {
        b
    } else if w == b {
        a
    } else {
        w
    }
}

/// Every `a` for a `b` and every `b` for an `a`.
pub open spec fn exchange_all(s: Seq<WindowId>, a: WindowId, b: WindowId) -> Seq<WindowId> {
    Seq::new(s.len(), |i: int| exchange(s[i], a, b))
}

/// Where the active window of a stack is after `a` and `b` traded places.
pub open spec fn active_after_exchange(
    windows: Seq<WindowId>,
    active: int,
    a: WindowId,
    b: WindowId,
) -> int {
    if 0 <= active < windows.len() {
        if windows[active] == a && windows.contains(b) {
            position(windows, b)->0
        } else if windows[active] == b && windows.contains(a) {
            position(windows, a)->0
        } else {
            active
        }
    } else {
        active
    }
}

/// Whether moving in `direction` crosses splits of this kind.
pub open spec fn along(split: SplitDirection, direction: Direction) -> bool {
    match split {
        SplitDirection::Vertical => direction == Direction::Left || direction == Direction::Right,
        SplitDirection::Horizontal => direction == Direction::Up || direction == Direction::Down,
    }
}

/// The ratio after a resize: to the right and down it grows the side on which
/// the window is, to the left and up it shrinks the first side or grows it.
pub open spec fn moved_ratio(ratio: i64, direction: Direction, in_left: bool, delta: i64) -> i64 {
    let forward = direction == Direction::Right || direction == Direction::Down;
    let v = if forward == in_left { ratio + delta } else { ratio - delta };
    if v < RATIO_MIN {
        RATIO_MIN
    } else if v > RATIO_MAX {
        RATIO_MAX
    } else {
        v as i64
    }
}


impl Clone for Node {
    fn clone(&self) -> (r: Self)
        ensures
            r@ == self@,
        decreases self,
    {
        match self {
            Node::Internal { split, ratio, left, right } => Node::Internal {
                split: *split,
                ratio: *ratio,
                left: Box::new((&**left).clone()),
                right: Box::new((&**right).clone()),
            },
            Node::Stack { windows, active, previous } => Node::Stack {
                windows: copy_u32(windows),
                active: *active,
                previous: Box::new((&**previous).clone()),
            },
            Node::Leaf { window } => Node::Leaf { window: *window },
        }
    }
}

impl Default for Node {
    fn default() -> (r: Self)
        ensures
            r@ == Tree::empty(),
    {
        Node::empty()
    }
}

impl Node {
    /// The mathematical value of the node.
    pub open spec fn tree(&self) -> Tree
        decreases self,
    {
        match self {
            Node::Internal { split, ratio, left, right } => Tree::Internal {
                split: *split,
                ratio: *ratio,
                left: Box::new(left.tree()),
                right: Box::new(right.tree()),
            },
            Node::Stack { windows, active, previous } => Tree::Stack {
                windows: windows@,
                active: *active as int,
                previous: Box::new(previous.tree()),
            },
            Node::Leaf { window } => Tree::Leaf { window: *window },
        }
    }

    pub fn empty() -> (r: Self)
        ensures
            r@ == Tree::empty(),
    {
        Node::Leaf { window: None }
    }

    pub fn is_empty(&self) -> (r: bool)
        ensures
            r == (self@ == Tree::empty()),
    {
        match self {
            Node::Leaf { window: None } => true,
            _ => false,
        }
    }

    pub fn windows(&self) -> (r: Vec<WindowId>)
        ensures
            r@ == self@.windows(),
        decreases self,
    {
        match self {
            Node::Leaf { window: Some(w) } => vec![*w],
            Node::Leaf { window: None } => vec![],
            Node::Stack { windows, .. } => copy_u32(windows),
            Node::Internal { left, right, .. } => {
                let mut ws = left.windows();
                let mut rest = right.windows();
                ws.append(&mut rest);
                ws
            },
        }
    }

    pub fn contains(&self, window: WindowId) -> (r: bool)
        ensures
            r == self@.windows().contains(window),
        decreases self,
    {
        match self {
            Node::Leaf { window: Some(w) } => {
                assert(self@.windows()[0] == *w);
                *w == window
            },
            Node::Leaf { window: None } => false,
            Node::Stack { windows, .. } => position_u32(windows, window).is_some(),
            Node::Internal { left, right, .. } => {
                let in_left = left.contains(window);
                let in_right = right.contains(window);
                proof {
                    lemma_contains_concat(left@.windows(), right@.windows(), window);
                }
                in_left || in_right
            },
        }
    }

    pub fn first_window(&self) -> (r: Option<WindowId>)
        ensures
            r == self@.first(),
        decreases self,
    {
        match self {
            Node::Leaf { window } => *window,
            Node::Stack { windows, active, .. } => if *active < windows.len() {
                Some(windows[*active])
            } else if windows.len() > 0 {
                Some(windows[0])
            } else {
                None
            },
            Node::Internal { left, right, .. } => match left.first_window() {
                Some(w) => Some(w),
                None => right.first_window(),
            },
        }
    }

    /// Side by side where the rectangle is wider than tall, one above the
    /// other otherwise.
    pub fn smart_split_direction(rect: &Rect) -> (r: SplitDirection)
        ensures
            r == smart_split(*rect),
    {
        if rect.width > rect.height {
            SplitDirection::Vertical
        } else {
            SplitDirection::Horizontal
        }
    }

    /// Inserts a window next to `target`, as if on a 1920 by 1080 screen.
    pub fn insert(&mut self, new_window: WindowId, target: Option<WindowId>)
        ensures
            final(self)@ == old(self)@.inserted(
                new_window,
                target,
                (Rect { x: 0, y: 0, width: 1_920_000, height: 1_080_000 }),
            ),
    {
        self.insert_with_rect(
            new_window,
            target,
            Rect { x: 0, y: 0, width: 1_920_000, height: 1_080_000 },
        );
    }

    /// Inserts a window next to `target` in a tree that fills `rect`.
    pub fn insert_with_rect(&mut self, new_window: WindowId, target: Option<WindowId>, rect: Rect)
        ensures
            final(self)@ == old(self)@.inserted(new_window, target, rect),
        decreases *old(self),
    {
        match self {
            Node::Leaf { window } => match *window {
                None => {
                    *self = Node::Leaf { window: Some(new_window) };
                },
                Some(existing) => {
                    *self = Node::Internal {
                        split: Node::smart_split_direction(&rect),
                        ratio: HALF,
                        left: Box::new(Node::Leaf { window: Some(existing) }),
                        right: Box::new(Node::Leaf { window: Some(new_window) }),
                    };
                    proof {
                        reveal_with_fuel(Node::tree, 2);
                    }
                },
            },
            Node::Internal { split, ratio, left, right } => {
                let (left_rect, right_rect) = rect.split(*split, *ratio);
                match target {
                    Some(t) => if left.contains(t) {
                        left.insert_with_rect(new_window, target, left_rect);
                    } else if right.contains(t) {
                        right.insert_with_rect(new_window, target, right_rect);
                    } else {
                        right.insert_with_rect(new_window, None, right_rect);
                    },
                    None => {
                        right.insert_with_rect(new_window, None, right_rect);
                    },
                }
            },
            Node::Stack { windows, active, previous } => {
                let found: Option<usize> = match target {
                    Some(t) => position_u32(windows, t),
                    None => None,
                };
                let count: usize = windows.len();
                let at: usize = match found {
                    Some(idx) => idx + 1,
                    None => if *active < count {
                        *active + 1
                    } else {
                        count
                    },
                };
                windows.insert(at, new_window);
                *active = at;
                previous.insert_with_rect(new_window, target, rect);
            },
        }
    }

    /// Hands out the tree and leaves an empty one.
    fn take(&mut self) -> (r: Node)
        ensures
            r == *old(self),
            final(self)@ == Tree::empty(),
    {
        let mut other: Node = Node::empty();
        std::mem::swap(self, &mut other);
        other
    }

    /// How many places on the screen the tree fills; a stack fills one.
    pub fn slot_count(&self) -> (r: usize)
        ensures
            r == self@.slots(),
    {
        let all = self.windows();
        let bound: usize = all.len();
        self.count_slots(bound)
    }

    fn count_slots(&self, bound: usize) -> (r: usize)
        requires
            self@.windows().len() <= bound,
        ensures
            r == self@.slots(),
            r <= self@.windows().len(),
        decreases self,
    {
        match self {
            Node::Leaf { window: Some(_) } => 1,
            Node::Leaf { window: None } => 0,
            Node::Stack { windows, .. } => if windows.len() > 0 { 1 } else { 0 },
            Node::Internal { left, right, .. } => left.count_slots(bound) + right.count_slots(bound),
        }
    }

    pub fn window_count(&self) -> (r: usize)
        ensures
            r == self@.windows().len(),
    {
        self.windows().len()
    }

    /// Removes a window, collapsing emptied splits; says whether it was there.
    pub fn remove(&mut self, window: WindowId) -> (r: bool)
        ensures
            r == old(self)@.windows().contains(window),
            final(self)@ == old(self)@.removed(window),
        decreases *old(self),
    {
        let present: bool = self.contains(window);
        if !present {
            proof {
                lemma_removed_absent(self@, window);
            }
            return false;
        }
        match self {
            Node::Leaf { .. } => {
                *self = Node::empty();
            },
            Node::Stack { windows, active, previous } => {
                let found: Option<usize> = position_u32(windows, window);
                if let Some(idx) = found {
                    let gone: WindowId = windows.remove(idx);
                    let _ = previous.remove(window);
                    let left_over: usize = windows.len();
                    if left_over == 0 {
                        *self = Node::empty();
                    } else if left_over == 1 {
                        let last: WindowId = windows[0];
                        *self = Node::Leaf { window: Some(last) };
                    } else if *active >= left_over {
                        *active = left_over - 1;
                    } else if idx < *active {
                        *active = *active - 1;
                    }
                }
            },
            Node::Internal { left, right, .. } => {
                proof {
                    lemma_contains_concat(left@.windows(), right@.windows(), window);
                }
                if left.contains(window) {
                    let _ = left.remove(window);
                    if left.is_empty() {
                        let kept: Node = right.take();
                        *self = kept;
                    }
                } else {
                    let _ = right.remove(window);
                    if right.is_empty() {
                        let kept: Node = left.take();
                        *self = kept;
                    }
                }
            },
        }
        true
    }

    /// Rectangles of all windows over `rect`, without gaps.
    pub fn calculate_geometries(&self, rect: Rect) -> (r: Vec<(WindowId, Rect)>)
        ensures
            r@ == self@.geometries(rect, 0, 0, true),
    {
        self.calculate_geometries_with_gaps(rect, 0, 0, true)
    }

    /// Rectangles of the windows that can take the focus by direction.
    pub fn calculate_focus_geometries(&self, rect: Rect) -> (r: Vec<(WindowId, Rect)>)
        ensures
            r@ == self@.focus_geometries(rect, 0, 0, true),
    {
        self.calculate_focus_geometries_with_gaps(rect, 0, 0, true)
    }

    /// Rectangles of all windows: `gap_outer` is kept free at the edges of the
    /// root, `gap_inner` between neighbours, half of it on each side.
    pub fn calculate_geometries_with_gaps(
        &self,
        rect: Rect,
        gap_inner: i64,
        gap_outer: i64,
        is_root: bool,
    ) -> (r: Vec<(WindowId, Rect)>)
        ensures
            r@ == self@.geometries(rect, gap_inner, gap_outer, is_root),
        decreases self,
    {
        let padded = pad_root(rect, gap_outer, is_root);
        match self {
            Node::Leaf { window: Some(w) } => vec![(*w, padded)],
            Node::Leaf { window: None } => vec![],
            Node::Stack { windows, active, .. } => stack_rects(windows, *active, padded),
            Node::Internal { split, ratio, left, right } => {
                let (first, second) = split_with_gap(padded, *split, *ratio, gap_inner);
                let mut geoms = left.calculate_geometries_with_gaps(
                    first,
                    gap_inner,
                    gap_outer,
                    false,
                );
                let mut rest = right.calculate_geometries_with_gaps(
                    second,
                    gap_inner,
                    gap_outer,
                    false,
                );
                geoms.append(&mut rest);
                geoms
            },
        }
    }

    /// As `calculate_geometries_with_gaps`, with only the active window of a
    /// stack.
    pub fn calculate_focus_geometries_with_gaps(
        &self,
        rect: Rect,
        gap_inner: i64,
        gap_outer: i64,
        is_root: bool,
    ) -> (r: Vec<(WindowId, Rect)>)
        ensures
            r@ == self@.focus_geometries(rect, gap_inner, gap_outer, is_root),
        decreases self,
    {
        let padded = pad_root(rect, gap_outer, is_root);
        match self {
            Node::Leaf { window: Some(w) } => vec![(*w, padded)],
            Node::Leaf { window: None } => vec![],
            Node::Stack { windows, active, .. } => if *active < windows.len() {
                vec![(windows[*active], padded)]
            } else {
                vec![]
            },
            Node::Internal { split, ratio, left, right } => {
                let (first, second) = split_with_gap(padded, *split, *ratio, gap_inner);
                let mut geoms = left.calculate_focus_geometries_with_gaps(
                    first,
                    gap_inner,
                    gap_outer,
                    false,
                );
                let mut rest = right.calculate_focus_geometries_with_gaps(
                    second,
                    gap_inner,
                    gap_outer,
                    false,
                );
                geoms.append(&mut rest);
                geoms
            },
        }
    }

    /// Sets all split ratios back to one half.
    pub fn equalize(&mut self)
        ensures
            final(self)@ == old(self)@.equalized(),
        decreases *old(self),
    {
        match self {
            Node::Internal { ratio, left, right, .. } => {
                *ratio = HALF;
                left.equalize();
                right.equalize();
            },
            _ => {},
        }
    }

    /// Swaps two windows; says whether the tree holds both.
    pub fn swap(&mut self, a: WindowId, b: WindowId) -> (r: bool)
        ensures
            final(self)@ == old(self)@.swapped(a, b),
            r == (a != b && old(self)@.windows().contains(a) && old(self)@.windows().contains(b)),
    {
        let found_a: bool = self.contains(a);
        let found_b: bool = self.contains(b);
        self.swap_impl(a, b);
        a != b && found_a && found_b
    }

    fn swap_impl(&mut self, a: WindowId, b: WindowId)
        ensures
            final(self)@ == old(self)@.swapped(a, b),
        decreases *old(self),
    {
        match self {
            Node::Leaf { window } => match *window {
                Some(w) => {
                    if w == a {
                        *window = Some(b);
                    } else if w == b {
                        *window = Some(a);
                    }
                },
                None => {},
            },
            Node::Stack { windows, active, previous } => {
                let count: usize = windows.len();
                if *active < count {
                    let current: WindowId = windows[*active];
                    if current == a {
                        if let Some(j) = position_u32(windows, b) {
                            *active = j;
                        }
                    } else if current == b {
                        if let Some(j) = position_u32(windows, a) {
                            *active = j;
                        }
                    }
                }
                exchange_in(windows, a, b);
                previous.swap_impl(a, b);
            },
            Node::Internal { left, right, .. } => {
                left.swap_impl(a, b);
                right.swap_impl(a, b);
            },
        }
    }

    /// Moves the split that bounds a window in the given direction by `delta`
    /// thousandths; says whether there is one.
    pub fn resize(&mut self, window: WindowId, direction: Direction, delta: i64) -> (r: bool)
        ensures
            final(self)@ == old(self)@.resized(window, direction, delta),
            r == old(self)@.can_resize(window, direction),
        decreases *old(self),
    {
        match self {
            Node::Internal { split, ratio, left, right } => {
                let in_left: bool = left.contains(window);
                let in_right: bool = right.contains(window);
                let crosses: bool = match *split {
                    SplitDirection::Vertical => direction == Direction::Left || direction
                        == Direction::Right,
                    SplitDirection::Horizontal => direction == Direction::Up || direction
                        == Direction::Down,
                };
                if crosses && (in_left || in_right) {
                    let forward: bool = direction == Direction::Right || direction
                        == Direction::Down;
                    let v: i128 = if forward == in_left {
                        *ratio as i128 + delta as i128
                    } else {
                        *ratio as i128 - delta as i128
                    };
                    *ratio = if v < RATIO_MIN as i128 {
                        RATIO_MIN
                    } else if v > RATIO_MAX as i128 {
                        RATIO_MAX
                    } else {
                        v as i64
                    };
                    true
                } else if in_left {
                    left.resize(window, direction, delta)
                } else if in_right {
                    right.resize(window, direction, delta)
                } else {
                    false
                }
            },
            _ => false,
        }
    }

    /// Whether `window` is in a stack.
    fn is_stacked(&self, window: WindowId) -> (r: bool)
        ensures
            r == self@.in_stack(window),
        decreases self,
    {
        match self {
            Node::Leaf { .. } => false,
            Node::Stack { windows, .. } => position_u32(windows, window).is_some(),
            Node::Internal { left, right, .. } => left.is_stacked(window) || right.is_stacked(
                window,
            ),
        }
    }

    /// Makes `window` the active one of its stack; says whether it is in one.
    pub fn set_stack_active(&mut self, window: WindowId) -> (r: bool)
        ensures
            final(self)@ == old(self)@.activated(window),
            r == old(self)@.in_stack(window),
        decreases *old(self),
    {
        match self {
            Node::Leaf { .. } => false,
            Node::Stack { windows, active, .. } => match position_u32(windows, window) {
                Some(idx) => {
                    *active = idx;
                    true
                },
                None => false,
            },
            Node::Internal { left, right, .. } => if left.is_stacked(window) {
                left.set_stack_active(window)
            } else {
                right.set_stack_active(window)
            },
        }
    }

    /// The members and the active index of the stack that holds `window`.
    pub fn stack_info(&self, window: WindowId) -> (r: Option<(Vec<WindowId>, usize)>)
        ensures
            match r {
                Some((members, active)) => self@.stack_of(window) == Some(
                    (members@, active as int),
                ),
                None => self@.stack_of(window) is None,
            },
        decreases self,
    {
        match self {
            Node::Leaf { .. } => None,
            Node::Stack { windows, active, .. } => match position_u32(windows, window) {
                Some(_) => Some((copy_u32(windows), *active)),
                None => None,
            },
            Node::Internal { left, right, .. } => if left.is_stacked(window) {
                left.stack_info(window)
            } else {
                right.stack_info(window)
            },
        }
    }

    /// Makes the neighbour of the active window in the stack of `window`
    /// active and returns it; at the end of the stack nothing changes.
    pub fn cycle_stack(&mut self, window: WindowId, forward: bool) -> (r: Option<WindowId>)
        ensures
            final(self)@ == old(self)@.cycled(window, forward),
            r == old(self)@.cycle_target(window, forward),
        decreases *old(self),
    {
        match self {
            Node::Leaf { .. } => None,
            Node::Stack { windows, active, .. } => {
                if position_u32(windows, window).is_none() {
                    return None;
                }
                let count: usize = windows.len();
                if forward {
                    if *active < count && *active + 1 < count {
                        *active = *active + 1;
                        Some(windows[*active])
                    } else {
                        None
                    }
                } else if *active > 0 && *active - 1 < count {
                    *active = *active - 1;
                    Some(windows[*active])
                } else {
                    None
                }
            },
            Node::Internal { left, right, .. } => if left.is_stacked(window) {
                left.cycle_stack(window, forward)
            } else {
                right.cycle_stack(window, forward)
            },
        }
    }

    /// Trades `window` with its neighbour in its stack, makes it active and
    /// returns it; at the end of the stack nothing changes.
    pub fn reorder_stack(&mut self, window: WindowId, forward: bool) -> (r: Option<WindowId>)
        ensures
            final(self)@ == old(self)@.reordered(window, forward),
            r == (if old(self)@.can_reorder(window, forward) {
                Some(window)
            } else {
                None
            }),
        decreases *old(self),
    {
        match self {
            Node::Leaf { .. } => None,
            Node::Stack { windows, active, previous } => match position_u32(windows, window) {
                None => None,
                Some(idx) => {
                    let count: usize = windows.len();
                    let other: usize = if forward {
                        if idx + 1 < count {
                            idx + 1
                        } else {
                            return None;
                        }
                    } else {
                        if idx > 0 {
                            idx - 1
                        } else {
                            return None;
                        }
                    };
                    let displaced: WindowId = windows[other];
                    windows[idx] = displaced;
                    windows[other] = window;
                    *active = other;
                    let _ = previous.swap(window, displaced);
                    Some(window)
                },
            },
            Node::Internal { left, right, .. } => if left.is_stacked(window) {
                left.reorder_stack(window, forward)
            } else {
                right.reorder_stack(window, forward)
            },
        }
    }

    /// Moves `window` to the top of its stack and makes it active; says
    /// whether it is in one.
    pub fn promote_stack_window(&mut self, window: WindowId) -> (r: bool)
        ensures
            final(self)@ == old(self)@.promoted(window),
            r == old(self)@.in_stack(window),
        decreases *old(self),
    {
        match self {
            Node::Leaf { .. } => false,
            Node::Stack { windows, active, .. } => match position_u32(windows, window) {
                Some(idx) => {
                    let moved: WindowId = windows.remove(idx);
                    windows.insert(0, moved);
                    *active = 0;
                    true
                },
                None => false,
            },
            Node::Internal { left, right, .. } => if left.is_stacked(window) {
                left.promote_stack_window(window)
            } else {
                right.promote_stack_window(window)
            },
        }
    }

    /// Puts the subtree that a stack had replaced back in its place; says
    /// whether `window` was in a stack.
    pub fn unstack(&mut self, window: WindowId) -> (r: bool)
        ensures
            final(self)@ == old(self)@.unstacked(window),
            r == old(self)@.in_stack(window),
        decreases *old(self),
    {
        match self {
            Node::Leaf { .. } => false,
            Node::Stack { windows, previous, .. } => {
                if position_u32(windows, window).is_some() {
                    let restored: Node = previous.take();
                    *self = restored;
                    true
                } else {
                    false
                }
            },
            Node::Internal { left, right, .. } => if left.is_stacked(window) {
                left.unstack(window)
            } else {
                right.unstack(window)
            },
        }
    }

    /// Turns the smallest split around `window` with another occupied slot
    /// into a stack with `window` on top; says whether there is such a split.
    pub fn make_stack_for_window(&mut self, window: WindowId) -> (r: bool)
        ensures
            final(self)@ == old(self)@.stacked(window),
            r == old(self)@.can_stack(window),
        decreases *old(self),
    {
        let possible: bool = self.is_stackable(window);
        if !possible {
            proof {
                lemma_stacked_impossible(self@, window);
            }
            return false;
        }
        match self {
            Node::Internal { left, right, .. } => {
                if left.contains(window) {
                    if left.is_stackable(window) {
                        let _ = left.make_stack_for_window(window);
                        return true;
                    }
                } else if right.is_stackable(window) {
                    let _ = right.make_stack_for_window(window);
                    return true;
                }
            },
            _ => {},
        }
        let windows: Vec<WindowId> = self.windows();
        let active: usize = match position_u32(&windows, window) {
            Some(idx) => idx,
            None => 0,
        };
        let previous: Node = self.take();
        *self = Node::Stack { windows, active, previous: Box::new(previous) };
        true
    }

    fn is_stackable(&self, window: WindowId) -> (r: bool)
        ensures
            r == self@.can_stack(window),
    {
        match self {
            Node::Internal { .. } => self.contains(window) && self.slot_count() > 1,
            _ => false,
        }
    }
}

/// A tree in which no stack can be made stays as it is.
pub proof fn lemma_stacked_impossible(t: Tree, w: WindowId)
    requires
        !t.can_stack(w),
    ensures
        t.stacked(w) == t,
{
    match t {
        Tree::Internal { left, right, .. } => {
            lemma_contains_concat(left.windows(), right.windows(), w);
        },
        _ => {},
    }
}

/// A root rectangle less the outer gap on each side.
fn pad_root(rect: Rect, gap_outer: i64, is_root: bool) -> (r: Rect)
    ensures
        r == padded_root(rect, gap_outer, is_root),
{
    if is_root && gap_outer > 0 {
        let gap: i128 = gap_outer as i128;
        Rect {
            x: fit_i64(rect.x as i128 + gap),
            y: fit_i64(rect.y as i128 + gap),
            width: shrink(rect.width, 2 * gap),
            height: shrink(rect.height, 2 * gap),
        }
    } else {
        rect
    }
}

/// A length less `by`, but not below zero.
fn shrink(length: i64, by: i128) -> (r: i64)
    requires
        0 <= by <= 0x1_0000_0000_0000_0000,
    ensures
        r == fit(nonneg(length - by)),
{
    let v: i128 = length as i128 - by;
    if v < 0 {
        0
    } else {
        fit_i64(v)
    }
}

/// Splits a rectangle and keeps `gap_inner` free between the parts.
fn split_with_gap(rect: Rect, split: SplitDirection, ratio: i64, gap_inner: i64) -> (r: (Rect, Rect))
    ensures
        r == gapped_parts(rect, split, ratio, gap_inner),
{
    let (mut first, mut second) = rect.split(split, ratio);
    if gap_inner > 0 {
        let half: i128 = (gap_inner / 2) as i128;
        match split {
            SplitDirection::Vertical => {
                first.width = shrink(first.width, half);
                second.x = fit_i64(second.x as i128 + half);
                second.width = shrink(second.width, half);
            },
            SplitDirection::Horizontal => {
                first.height = shrink(first.height, half);
                second.y = fit_i64(second.y as i128 + half);
                second.height = shrink(second.height, half);
            },
        }
    }
    (first, second)
}

/// Rectangles of the members of a stack.
fn stack_rects(windows: &Vec<WindowId>, active: usize, rect: Rect) -> (r: Vec<(WindowId, Rect)>)
    ensures
        r@ == stack_geometries(windows@, active as int, rect),
{
    let count: usize = windows.len();
    let following: usize = if count > active && count > active + 1 {
        count - (active + 1)
    } else {
        0
    };
    let sign: i128 = if active > following { -1 } else { 1 };
    let mut geoms: Vec<(WindowId, Rect)> = Vec::new();
    let mut i: usize = 0;
    let ghost keep = |w: WindowId| !(0 <= active < windows@.len() && w == windows@[active as int]);
    while i < count
        invariant
            i <= count == windows@.len(),
            keep == (|w: WindowId|
                !(0 <= active < windows@.len() && w == windows@[active as int])),
            sign == reveal_sign(count as int, active as int),
            -1 <= sign <= 1,
            geoms@.len() == windows@.take(i as int).filter(keep).len(),
            geoms@.len() <= i,
            forall|k: int|
                0 <= k < geoms@.len() ==> #[trigger] geoms@[k] == (
                    windows@.take(i as int).filter(keep)[k],
                    revealed(rect, sign as int, k + 1),
                ),
        decreases count - i,
    {
        let w: WindowId = windows[i];
        proof {
            assert(windows@.take(i + 1).drop_last() =~= windows@.take(i as int));
            reveal(Seq::filter);
        }
        if !(active < count && w == windows[active]) {
            let depth: i128 = geoms.len() as i128 + 1;
            assert(sign * STACK_REVEAL_OFFSET_X * depth == if sign < 0 {
                -(4000 * depth)
            } else {
                4000 * depth
            }) by (nonlinear_arith)
                requires
                    sign == -1 || sign == 1,
                    STACK_REVEAL_OFFSET_X == 4000,
            ;
            let across: i128 = if sign < 0 {
                -(4000 * depth)
            } else {
                4000 * depth
            };
            geoms.push(
                (
                    w,
                    Rect {
                        x: fit_i64(rect.x as i128 + across),
                        y: fit_i64(rect.y as i128 + 4000 * depth),
                        width: rect.width,
                        height: rect.height,
                    },
                ),
            );
        }
        i = i + 1;
    }
    assert(windows@.take(count as int) =~= windows@);
    if active < count {
        geoms.push((windows[active], rect));
    }
    assert(geoms@ =~= stack_geometries(windows@, active as int, rect));
    geoms
}

/// Puts `b` for every `a` and `a` for every `b`.
fn exchange_in(v: &mut Vec<WindowId>, a: WindowId, b: WindowId)
    ensures
        final(v)@ == exchange_all(old(v)@, a, b),
{
    let mut i: usize = 0;
    while i < v.len()
        invariant
            i <= v@.len() == old(v)@.len(),
            forall|k: int| 0 <= k < i ==> #[trigger] v@[k] == exchange(old(v)@[k], a, b),
            forall|k: int| i <= k < v@.len() ==> #[trigger] v@[k] == old(v)@[k],
        decreases v.len() - i,
    {
        let w: WindowId = v[i];
        if w == a {
            v[i] = b;
        } else if w == b {
            v[i] = a;
        }
        i = i + 1;
    }
}


/// Removing what is not there changes nothing.
pub proof fn lemma_removed_absent(t: Tree, w: WindowId)
    requires
        !t.windows().contains(w),
    ensures
        t.removed(w) == t,
    decreases t,
{
    match t {
        Tree::Leaf { window: Some(x) } => {
            assert(t.windows()[0] == x);
        },
        Tree::Leaf { window: None } => {},
        Tree::Stack { .. } => {},
        Tree::Internal { left, right, .. } => {
            lemma_contains_concat(left.windows(), right.windows(), w);
        },
    }
}

/// Membership in a concatenation.
pub proof fn lemma_contains_concat<T>(a: Seq<T>, b: Seq<T>, x: T)
    ensures
        (a + b).contains(x) == (a.contains(x) || b.contains(x)),
{
    if a.contains(x) {
        let i = choose|i: int| 0 <= i < a.len() && a[i] == x;
        assert((a + b)[i] == x);
    }
    if b.contains(x) {
        let i = choose|i: int| 0 <= i < b.len() && b[i] == x;
        assert((a + b)[a.len() + i] == x);
    }
    if (a + b).contains(x) {
        let i = choose|i: int| 0 <= i < (a + b).len() && (a + b)[i] == x;
        if i < a.len() {
            assert(a[i] == x);
        } else {
            assert(b[i - a.len()] == x);
        }
    }
}

} // verus!
