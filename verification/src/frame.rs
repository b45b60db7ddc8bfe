//! The frame of a fence window: what its edges and its title row mean for the pointer, and how a
//! move or a resize goes on.

use crate::commands::{Command, WindowId};
use crate::model::FenceId;
use crate::placement::{can_stand, fits, height_of, rect_at, width_of, Rect};
use crate::tabs::TabDetach;
use vstd::prelude::*;

verus! {

// ---- hit test -----------------------------------------------------------------------------

/// A part of a window.
#[derive(Clone, Copy, Debug, PartialEq, Eq, Structural)]
pub enum Hit {
    Nowhere,
    Client,
    Caption,
    Left,
    Right,
    Top,
    TopLeft,
    TopRight,
    Bottom,
    BottomLeft,
    BottomRight,
}

impl Hit {
    /// The number that the system has for the part.
    pub fn code(self) -> (r: isize)
        ensures
            r == match self {
                Hit::Nowhere => 0isize,
                Hit::Client => 1isize,
                Hit::Caption => 2isize,
                Hit::Left => 10isize,
                Hit::Right => 11isize,
                Hit::Top => 12isize,
                Hit::TopLeft => 13isize,
                Hit::TopRight => 14isize,
                Hit::Bottom => 15isize,
                Hit::BottomLeft => 16isize,
                Hit::BottomRight => 17isize,
            },
    {
        match self {
            Hit::Nowhere => 0,
            Hit::Client => 1,
            Hit::Caption => 2,
            Hit::Left => 10,
            Hit::Right => 11,
            Hit::Top => 12,
            Hit::TopLeft => 13,
            Hit::TopRight => 14,
            Hit::Bottom => 15,
            Hit::BottomLeft => 16,
            Hit::BottomRight => 17,
        }
    }
}

/// A window's frame, in pixels.
#[derive(Clone, Copy, Debug, PartialEq, Eq, Structural)]
pub struct Frame {
    pub rect: Rect,
    /// The width of an edge that can be dragged.
    pub border: i32,
    pub title_h: i32,
    pub locked: bool,
    pub rolled: bool,
}

/// The point is inside the rectangle.
pub open spec fn is_inside(x: int, y: int, r: Rect) -> bool {
    r.left <= x < r.right && r.top <= y < r.bottom
}

/// The edge or corner, of a window that can be resized.
pub open spec fn edge_of(left: bool, right: bool, top: bool, bottom: bool) -> Option<Hit> {
    if left && top {
        Some(Hit::TopLeft)
    } else if right && top {
        Some(Hit::TopRight)
    } else if left && bottom {
        Some(Hit::BottomLeft)
    } else if right && bottom {
        Some(Hit::BottomRight)
    } else if left {
        Some(Hit::Left)
    } else if right {
        Some(Hit::Right)
    } else if top {
        Some(Hit::Top)
    } else if bottom {
        Some(Hit::Bottom)
    } else {
        None
    }
}

/// The part of a window under a point. The controls of the title row take clicks of their own; a
/// locked window has no edges, and a rolled-up one only its left and right.
pub open spec fn hit_of(x: int, y: int, f: Frame, on_control: bool) -> Hit {
    let left = x - f.rect.left < f.border;
    let right = f.rect.right - x <= f.border;
    let top = y - f.rect.top < f.border;
    let bottom = f.rect.bottom - y <= f.border;
    let title = y - f.rect.top < f.title_h;
    if !is_inside(x, y, f.rect) {
        Hit::Nowhere
    } else if title && !left && !right && on_control {
        Hit::Client
    } else if f.locked {
        if title {
            Hit::Caption
        } else {
            Hit::Client
        }
    } else if f.rolled {
        if left {
            Hit::Left
        } else if right {
            Hit::Right
        } else {
            Hit::Caption
        }
    } else {
        match edge_of(left, right, top, bottom) {
            Some(e) => e,
            None => if title {
                Hit::Caption
            } else {
                Hit::Client
            },
        }
    }
}

/// The part of a window under a point of the screen. `on_control` says that a tab, the up button
/// or the chevron is there.
pub fn hit_test(x: i32, y: i32, f: &Frame, on_control: bool) -> (r: Hit)
    ensures
        r == hit_of(x as int, y as int, *f, on_control),
{
    let from_left: i64 = x as i64 - f.rect.left as i64;
    let from_top: i64 = y as i64 - f.rect.top as i64;
    let to_right: i64 = f.rect.right as i64 - x as i64;
    let to_bottom: i64 = f.rect.bottom as i64 - y as i64;
    if from_left < 0 || from_top < 0 || to_right <= 0 || to_bottom <= 0 {
        return Hit::Nowhere;
    }
    let border: i64 = f.border as i64;
    let left: bool = from_left < border;
    let right: bool = to_right <= border;
    let top: bool = from_top < border;
    let bottom: bool = to_bottom <= border;
    let title: bool = from_top < f.title_h as i64;
    if title && !left && !right && on_control {
        return Hit::Client;
    }
    if f.locked {
        return if title {
            Hit::Caption
        } else {
            Hit::Client
        };
    }
    if f.rolled {
        return if left {
            Hit::Left
        } else if right {
            Hit::Right
        } else {
            Hit::Caption
        };
    }
    if left && top {
        Hit::TopLeft
    } else if right && top {
        Hit::TopRight
    } else if left && bottom {
        Hit::BottomLeft
    } else if right && bottom {
        Hit::BottomRight
    } else if left {
        Hit::Left
    } else if right {
        Hit::Right
    } else if top {
        Hit::Top
    } else if bottom {
        Hit::Bottom
    } else if title {
        Hit::Caption
    } else {
        Hit::Client
    }
}

/// The part is an edge or a corner.
pub open spec fn is_edge(h: Hit) -> bool {
    !(h is Nowhere) && !(h is Client) && !(h is Caption)
}

/// A locked window cannot be resized anywhere, and a rolled-up one only in its width. Every point
/// of a window belongs to one of its parts, and no other point does.
pub proof fn locked_windows_have_no_edges(x: int, y: int, f: Frame, on_control: bool)
    ensures
        f.locked ==> !is_edge(hit_of(x, y, f, on_control)),
        f.rolled && is_edge(hit_of(x, y, f, on_control)) ==> hit_of(x, y, f, on_control)
            == Hit::Left || hit_of(x, y, f, on_control) == Hit::Right,
        (hit_of(x, y, f, on_control) == Hit::Nowhere) == !is_inside(x, y, f.rect),
{
}

// ---- the title row ------------------------------------------------------------------------

/// The title row under the pointer.
#[derive(Clone, Copy, Debug, PartialEq, Eq)]
pub struct TitleBar {
    /// The timer that opens a peek runs.
    pub peek_armed: bool,
    /// Where a rolled-up title was pressed that a click expands.
    pub click_pending: Option<(i32, i32)>,
    /// The last click expanded the fence; the double click that it may become does nothing.
    pub suppress_dblclk: bool,
    /// Expanded for as long as the pointer stays.
    pub peeking: bool,
}

/// What the title row goes by.
#[derive(Clone, Copy, Debug, PartialEq, Eq, Structural)]
pub struct TitleSight {
    pub rolled_up: bool,
    /// It is just being rolled up or down.
    pub rolling: bool,
    pub locked: bool,
    pub hover_peek: bool,
    pub click_to_expand: bool,
    pub in_size_move: bool,
    pub menu_open: bool,
    /// The window draws its own drags.
    pub own_drag: bool,
}

/// What a move of the pointer over the title row comes to.
#[derive(Clone, Copy, Debug, PartialEq, Eq)]
pub enum TitleMove {
    /// The press becomes a move of the window, from where it was made.
    Drag { from: (i32, i32) },
    Hover {
        /// Start the timer that opens a peek.
        open_timer: bool,
        /// Stop the timer that closes one.
        keep_open: bool,
    },
}

/// The points are farther apart than a click allows.
pub open spec fn is_far(a: (i32, i32), b: (i32, i32), threshold: (i32, i32)) -> bool {
    ||| a.0 - b.0 > threshold.0
    ||| b.0 - a.0 > threshold.0
    ||| a.1 - b.1 > threshold.1
    ||| b.1 - a.1 > threshold.1
}

/// The points are farther apart than a click allows.
pub fn far_apart(a: (i32, i32), b: (i32, i32), threshold: (i32, i32)) -> (r: bool)
    ensures
        r == is_far(a, b, threshold),
{
    let dx: i64 = a.0 as i64 - b.0 as i64;
    let dy: i64 = a.1 as i64 - b.1 as i64;
    let tx: i64 = threshold.0 as i64;
    let ty: i64 = threshold.1 as i64;
    dx > tx || -dx > tx || dy > ty || -dy > ty
}

/// The press becomes a drag.
pub open spec fn becomes_drag(
    t: TitleBar,
    at: (i32, i32),
    button_down: bool,
    threshold: (i32, i32),
) -> bool {
    t.click_pending matches Some(p) && button_down && is_far(at, p, threshold)
}

/// Resting over the title opens a peek.
pub open spec fn may_peek(t: TitleBar, s: TitleSight) -> bool {
    s.rolled_up && !t.peeking && !s.rolling && s.hover_peek && !s.click_to_expand
        && !s.in_size_move && !s.menu_open
}

/// What a press on the frame comes to.
#[derive(Clone, Copy, Debug, PartialEq, Eq)]
pub enum TitlePress {
    /// The system goes on with it.
    Pass,
    /// Nothing more happens.
    Swallow,
    /// The window moves itself. A release without a move expands it where `click_expand` says so.
    OwnDrag { offset: (i32, i32), click_expand: bool },
}

/// A click on the title expands the fence.
pub open spec fn click_expands(t: TitleBar, s: TitleSight) -> bool {
    s.click_to_expand && s.rolled_up && !t.peeking && !s.rolling
}

/// The title row once the button was released on it.
pub open spec fn after_release(t: TitleBar) -> TitleBar {
    if t.click_pending is Some {
        TitleBar { click_pending: None, suppress_dblclk: true, ..t }
    } else {
        t
    }
}

/// The command that releasing the button gives.
pub open spec fn release_command(t: TitleBar, fence: FenceId) -> Option<Command> {
    if t.click_pending is Some {
        Some(Command::ToggleRollUp(fence))
    } else {
        None
    }
}

/// The command that a double click gives.
pub open spec fn double_command(t: TitleBar, fence: FenceId) -> Option<Command> {
    if t.suppress_dblclk {
        None
    } else if t.peeking {
        Some(Command::CommitExpanded(fence))
    } else {
        Some(Command::ToggleRollUp(fence))
    }
}

impl TitleBar {
    pub fn new() -> (r: Self)
        ensures
            r == (TitleBar {
                peek_armed: false,
                click_pending: None,
                suppress_dblclk: false,
                peeking: false,
            }),
    {
        TitleBar { peek_armed: false, click_pending: None, suppress_dblclk: false, peeking: false }
    }

    /// The pointer moves over the title row.
    pub fn pointer_moved(
        &mut self,
        s: &TitleSight,
        at: (i32, i32),
        button_down: bool,
        threshold: (i32, i32),
    ) -> (r: TitleMove)
        ensures
            ({
                let t = *old(self);
                if becomes_drag(t, at, button_down, threshold) {
                    r == (TitleMove::Drag { from: t.click_pending->0 }) && *final(self) == (
                    TitleBar { click_pending: None, ..t })
                } else {
                    r == (TitleMove::Hover {
                        open_timer: may_peek(t, *s) && !t.peek_armed,
                        keep_open: t.peeking,
                    }) && *final(self) == (TitleBar {
                        peek_armed: t.peek_armed || may_peek(t, *s),
                        ..t
                    })
                }
            }),
    {
        if let Some(p) = self.click_pending {
            if button_down && far_apart(at, p, threshold) {
                self.click_pending = None;
                return TitleMove::Drag { from: p };
            }
        }
        let may: bool = s.rolled_up && !self.peeking && !s.rolling && s.hover_peek
            && !s.click_to_expand && !s.in_size_move && !s.menu_open;
        let open_timer: bool = may && !self.peek_armed;
        if may {
            self.peek_armed = true;
        }
        TitleMove::Hover { open_timer, keep_open: self.peeking }
    }

    /// The pointer leaves the title row; `inside` says that it is still over the window. Returns
    /// whether the timer starts that closes a peek.
    pub fn pointer_left(&mut self, inside: bool) -> (r: bool)
        ensures
            r == old(self).peeking,
            *final(self) == if inside {
                *old(self)
            } else {
                TitleBar { peek_armed: false, click_pending: None, ..*old(self) }
            },
    {
        if !inside {
            self.peek_armed = false;
            self.click_pending = None;
        }
        self.peeking
    }

    /// The button is pressed on the frame, on its title where `caption` says so.
    pub fn pressed(&mut self, s: &TitleSight, caption: bool, at: (i32, i32), rect: &Rect) -> (r: TitlePress)
        requires
            fits(at.0 - rect.left),
            fits(at.1 - rect.top),
        ensures
            ({
                let t = TitleBar { peek_armed: false, suppress_dblclk: false, ..*old(self) };
                if !caption {
                    r == TitlePress::Pass && *final(self) == t
                } else if s.locked {
                    r == TitlePress::Swallow && *final(self) == t
                } else if s.own_drag {
                    r == (TitlePress::OwnDrag {
                        offset: ((at.0 - rect.left) as i32, (at.1 - rect.top) as i32),
                        click_expand: click_expands(t, *s),
                    }) && *final(self) == t
                } else if click_expands(t, *s) {
                    r == TitlePress::Swallow && *final(self) == (TitleBar {
                        click_pending: Some(at),
                        ..t
                    })
                } else {
                    r == TitlePress::Pass && *final(self) == t
                }
            }),
    {
        self.peek_armed = false;
        self.suppress_dblclk = false;
        if !caption {
            return TitlePress::Pass;
        }
        if s.locked {
            return TitlePress::Swallow;
        }
        let expands: bool = s.click_to_expand && s.rolled_up && !self.peeking && !s.rolling;
        if s.own_drag {
            return TitlePress::OwnDrag {
                offset: (at.0 - rect.left, at.1 - rect.top),
                click_expand: expands,
            };
        }
        if expands {
            self.click_pending = Some(at);
            return TitlePress::Swallow;
        }
        TitlePress::Pass
    }

    /// The button is released on the frame. Returns the command that it gives.
    pub fn released(&mut self, fence: FenceId) -> (r: Option<Command>)
        ensures
            r == release_command(*old(self), fence),
            *final(self) == after_release(*old(self)),
    {
        if self.click_pending.is_some() {
            self.click_pending = None;
            self.suppress_dblclk = true;
            Some(Command::ToggleRollUp(fence))
        } else {
            None
        }
    }

    /// The title is double-clicked. Returns the command that it gives: none where its first click
    /// has already expanded the fence.
    pub fn double_clicked(&mut self, fence: FenceId) -> (r: Option<Command>)
        ensures
            r == double_command(*old(self), fence),
            *final(self) == if old(self).suppress_dblclk {
                TitleBar { suppress_dblclk: false, ..*old(self) }
            } else {
                TitleBar { peeking: false, ..*old(self) }
            },
    {
        if self.suppress_dblclk {
            self.suppress_dblclk = false;
            return None;
        }
        let was: bool = self.peeking;
        self.peeking = false;
        if was {
            Some(Command::CommitExpanded(fence))
        } else {
            Some(Command::ToggleRollUp(fence))
        }
    }

    /// The title is right-clicked: a peek does not open under the menu.
    pub fn menu_asked(&mut self, shown: FenceId, at: (i32, i32)) -> (r: Command)
        ensures
            r == (Command::FenceMenu { fence: shown, x: at.0, y: at.1 }),
            *final(self) == (TitleBar { peek_armed: false, ..*old(self) }),
    {
        self.peek_armed = false;
        Command::FenceMenu { fence: shown, x: at.0, y: at.1 }
    }
}

/// The double click that follows a click which expanded a fence does not roll it up again.
pub proof fn a_click_expands_once(t: TitleBar, fence: FenceId)
    requires
        t.click_pending is Some,
    ensures
        release_command(t, fence) == Some(Command::ToggleRollUp(fence)),
        double_command(after_release(t), fence) is None,
{
}

// ---- moving and resizing ------------------------------------------------------------------

/// The system commands for resizing and moving, and that for a move by the title.
pub const SC_SIZE: usize = 0xF000;
pub const SC_MOVE: usize = 0xF010;
pub const SC_MOVE_CAPTION: usize = 0xF012;

/// A move or a resize of a window by the pointer.
#[derive(Clone, Copy, Debug, PartialEq, Eq)]
pub struct SizeMove {
    pub active: bool,
    /// The window when it began.
    pub at_enter: Rect,
    /// Where the title was pressed for it.
    pub move_start: Option<(i32, i32)>,
    /// Where in the window the pointer holds it.
    pub grab: (i32, i32),
    /// The window that is lit as the one to merge into, 0 for none.
    pub merge_target: WindowId,
    /// The place of the pointer that was last told to that window.
    pub merge_x: i32,
}

/// What a step of a move comes to.
#[derive(Debug, PartialEq, Eq)]
pub struct MoveStep {
    /// Where the pointer says that the window is.
    pub rect: Rect,
    /// The window snaps to others from there.
    pub snap: bool,
    pub hint: Option<Command>,
}

/// What the end of a move or a resize comes to.
#[derive(Debug, PartialEq, Eq)]
pub struct MoveEnd {
    /// Put the light of the window out that was lit.
    pub clear_hint: bool,
    /// The height that the fence has from now on.
    pub expanded_h: Option<i32>,
    /// Merge into this window.
    pub merge_into: Option<WindowId>,
    /// Start the timer that closes a peek.
    pub close_timer: bool,
}

/// A move that was not taken back: the window has its size, but not its place.
pub open spec fn was_moved(from: Rect, to: Rect, escaped: bool) -> bool {
    width_of(from) == width_of(to) && height_of(from) == height_of(to) && from != to && !escaped
}

impl SizeMove {
    pub fn new() -> (r: Self)
        ensures
            r == (SizeMove {
                active: false,
                at_enter: Rect { left: 0, top: 0, right: 0, bottom: 0 },
                move_start: None,
                grab: (0, 0),
                merge_target: 0,
                merge_x: i32::MIN,
            }),
    {
        SizeMove {
            active: false,
            at_enter: Rect { left: 0, top: 0, right: 0, bottom: 0 },
            move_start: None,
            grab: (0, 0),
            merge_target: 0,
            merge_x: i32::MIN,
        }
    }

    /// A system command comes in. Returns whether it is held back: a locked window is neither
    /// moved nor resized.
    pub fn system_command(&mut self, command: usize, at: (i32, i32), locked: bool) -> (r: bool)
        ensures
            ({
                let plain = command & 0xFFF0;
                let concerns = plain == SC_MOVE || plain == SC_SIZE;
                &&& r == (locked && concerns)
                &&& *final(self) == if concerns && !locked {
                    SizeMove {
                        move_start: if command == SC_MOVE_CAPTION {
                            Some(at)
                        } else {
                            None
                        },
                        ..*old(self)
                    }
                } else {
                    *old(self)
                }
            }),
    {
        let plain: usize = command & 0xFFF0;
        if plain != SC_MOVE && plain != SC_SIZE {
            return false;
        }
        if locked {
            return true;
        }
        self.move_start = if command == SC_MOVE_CAPTION {
            Some(at)
        } else {
            None
        };
        false
    }

    /// A move or a resize begins. The window is held where its title was pressed, or where the
    /// pointer is.
    pub fn enter(&mut self, rect: Rect, cursor: (i32, i32))
        requires
            ({
                let p = match old(self).move_start {
                    Some(s) => s,
                    None => cursor,
                };
                fits(p.0 - rect.left) && fits(p.1 - rect.top)
            }),
        ensures
            ({
                let p = match old(self).move_start {
                    Some(s) => s,
                    None => cursor,
                };
                *final(self) == (SizeMove {
                    active: true,
                    at_enter: rect,
                    move_start: None,
                    grab: ((p.0 - rect.left) as i32, (p.1 - rect.top) as i32),
                    merge_target: 0,
                    merge_x: i32::MIN,
                })
            }),
    {
        let p: (i32, i32) = match self.move_start {
            Some(s) => s,
            None => cursor,
        };
        *self = SizeMove {
            active: true,
            at_enter: rect,
            move_start: None,
            grab: (p.0 - rect.left, p.1 - rect.top),
            merge_target: 0,
            merge_x: i32::MIN,
        };
    }

    /// The window is moved. `target` is the window under the pointer that this one would merge
    /// into, 0 for none. The hint is given again where the target changes, and where the pointer
    /// moves along it.
    pub fn moving(&mut self, rect: &Rect, cursor: (i32, i32), target: WindowId, snapping: bool) -> (r: MoveStep)
        requires
            fits(width_of(*rect)),
            fits(height_of(*rect)),
            can_stand(
                cursor.0 - old(self).grab.0,
                cursor.1 - old(self).grab.1,
                width_of(*rect),
                height_of(*rect),
            ),
        ensures
            r.rect == rect_at(
                cursor.0 - old(self).grab.0,
                cursor.1 - old(self).grab.1,
                width_of(*rect),
                height_of(*rect),
            ),
            r.snap == (snapping && target == 0),
            r.hint == if target != old(self).merge_target || (target != 0 && cursor.0 != old(
                self,
            ).merge_x) {
                Some(Command::MergeHint { target, x: cursor.0 })
            } else {
                None
            },
            *final(self) == (SizeMove {
                merge_target: target,
                merge_x: if target != old(self).merge_target || target != 0 {
                    cursor.0
                } else {
                    old(self).merge_x
                },
                ..*old(self)
            }),
    {
        let w: i32 = rect.right - rect.left;
        let h: i32 = rect.bottom - rect.top;
        let left: i32 = cursor.0 - self.grab.0;
        let top: i32 = cursor.1 - self.grab.1;
        let changed: bool = target != self.merge_target;
        let tell: bool = changed || (target != 0 && cursor.0 != self.merge_x);
        self.merge_target = target;
        if changed || target != 0 {
            self.merge_x = cursor.0;
        }
        MoveStep {
            rect: Rect { left, top, right: left + w, bottom: top + h },
            snap: snapping && target == 0,
            hint: if tell {
                Some(Command::MergeHint { target, x: cursor.0 })
            } else {
                None
            },
        }
    }

    /// The move or the resize ends. A move that was taken back merges nothing, whatever is under
    /// the pointer. A height that is just changing is not kept.
    pub fn exit(
        &mut self,
        rect: &Rect,
        escaped: bool,
        under: Option<WindowId>,
        rolled_up: bool,
        height_changing: bool,
        peeking: bool,
    ) -> (r: MoveEnd)
        requires
            fits(height_of(*rect)),
        ensures
            r.clear_hint == (old(self).merge_target != 0),
            r.expanded_h == if !rolled_up && !height_changing {
                Some(height_of(*rect) as i32)
            } else {
                None
            },
            r.merge_into == if was_moved(old(self).at_enter, *rect, escaped) {
                under
            } else {
                None
            },
            r.close_timer == peeking,
            *final(self) == (SizeMove { active: false, merge_target: 0, ..*old(self) }),
    {
        let from: Rect = self.at_enter;
        let same_size: bool = rect.right as i64 - rect.left as i64 == from.right as i64
            - from.left as i64 && rect.bottom as i64 - rect.top as i64 == from.bottom as i64
            - from.top as i64;
        let cancelled: bool = *rect == from || escaped;
        let clear_hint: bool = self.merge_target != 0;
        self.active = false;
        self.merge_target = 0;
        MoveEnd {
            clear_hint,
            expanded_h: if !rolled_up && !height_changing {
                Some(rect.bottom - rect.top)
            } else {
                None
            },
            merge_into: if same_size && !cancelled {
                under
            } else {
                None
            },
            close_timer: peeking,
        }
    }
}

/// A window that is moved, without snapping, keeps its size and stays where the pointer holds it:
/// the pointer is as far from its corner as when the move began.
pub proof fn windows_stay_under_the_pointer(m: SizeMove, rect: Rect, cursor: (i32, i32))
    requires
        can_stand(
            cursor.0 - m.grab.0,
            cursor.1 - m.grab.1,
            width_of(rect),
            height_of(rect),
        ),
    ensures
        ({
            let r = rect_at(
                cursor.0 - m.grab.0,
                cursor.1 - m.grab.1,
                width_of(rect),
                height_of(rect),
            );
            &&& width_of(r) == width_of(rect)
            &&& height_of(r) == height_of(rect)
            &&& cursor.0 - r.left == m.grab.0
            &&& cursor.1 - r.top == m.grab.1
        }),
{
}

/// The edges by which a window is resized.
pub const EDGE_LEFT: usize = 1;
pub const EDGE_TOP: usize = 3;
pub const EDGE_TOP_LEFT: usize = 4;
pub const EDGE_TOP_RIGHT: usize = 5;
pub const EDGE_BOTTOM_LEFT: usize = 7;

pub open spec fn drags_left(edge: usize) -> bool {
    edge == EDGE_LEFT || edge == EDGE_TOP_LEFT || edge == EDGE_BOTTOM_LEFT
}

pub open spec fn drags_top(edge: usize) -> bool {
    edge == EDGE_TOP || edge == EDGE_TOP_LEFT || edge == EDGE_TOP_RIGHT
}

/// The height that a window is given while it is resized: a rolled-up one is its title row.
pub open spec fn sized_height(rolled: bool, title_h: int, snapped_h: Option<i32>) -> Option<int> {
    if rolled {
        Some(title_h)
    } else {
        match snapped_h {
            Some(h) => Some(h as int),
            None => None,
        }
    }
}

/// The window while it is resized: whole columns wide and whole rows high where such sizes are
/// given, with the edge that is not dragged where it was.
pub open spec fn sized(
    r: Rect,
    edge: usize,
    snapped_w: Option<i32>,
    rolled: bool,
    title_h: int,
    snapped_h: Option<i32>,
) -> Rect {
    let left = if snapped_w is Some && drags_left(edge) {
        r.right - snapped_w->0
    } else {
        r.left as int
    };
    let right = if snapped_w is Some && !drags_left(edge) {
        r.left + snapped_w->0
    } else {
        r.right as int
    };
    let h = sized_height(rolled, title_h, snapped_h);
    let by_top = !rolled && drags_top(edge);
    let top = if h is Some && by_top {
        r.bottom - h->0
    } else {
        r.top as int
    };
    let bottom = if h is Some && !by_top {
        r.top + h->0
    } else {
        r.bottom as int
    };
    Rect { left: left as i32, top: top as i32, right: right as i32, bottom: bottom as i32 }
}

/// The window while it is resized by an edge.
pub fn sizing(
    r: &Rect,
    edge: usize,
    snapped_w: Option<i32>,
    rolled: bool,
    title_h: i32,
    snapped_h: Option<i32>,
) -> (out: Rect)
    requires
        snapped_w matches Some(w) ==> fits(r.right - w) && fits(r.left + w),
        sized_height(rolled, title_h as int, snapped_h) matches Some(h) ==> fits(r.bottom - h)
            && fits(r.top + h),
    ensures
        out == sized(*r, edge, snapped_w, rolled, title_h as int, snapped_h),
{
    let mut out: Rect = *r;
    if let Some(w) = snapped_w {
        if edge == EDGE_LEFT || edge == EDGE_TOP_LEFT || edge == EDGE_BOTTOM_LEFT {
            out.left = r.right - w;
        } else {
            out.right = r.left + w;
        }
    }
    if rolled {
        out.bottom = r.top + title_h;
    } else if let Some(h) = snapped_h {
        if edge == EDGE_TOP || edge == EDGE_TOP_LEFT || edge == EDGE_TOP_RIGHT {
            out.top = r.bottom - h;
        } else {
            out.bottom = r.top + h;
        }
    }
    out
}

/// A resized window has the size that it was given, and the edge across from the dragged one does
/// not move.
pub proof fn the_far_edge_stays(
    r: Rect,
    edge: usize,
    snapped_w: Option<i32>,
    rolled: bool,
    title_h: int,
    snapped_h: Option<i32>,
)
    requires
        snapped_w matches Some(w) ==> fits(r.right - w) && fits(r.left + w),
        sized_height(rolled, title_h, snapped_h) matches Some(h) ==> fits(r.bottom - h) && fits(
            r.top + h,
        ),
    ensures
        ({
            let o = sized(r, edge, snapped_w, rolled, title_h, snapped_h);
            &&& snapped_w matches Some(w) ==> width_of(o) == w
            &&& sized_height(rolled, title_h, snapped_h) matches Some(h) ==> height_of(o) == h
            &&& if drags_left(edge) {
                o.right == r.right
            } else {
                o.left == r.left
            }
            &&& if !rolled && drags_top(edge) {
                o.bottom == r.bottom
            } else {
                o.top == r.top
            }
        }),
{
}

// ---- drags that are taken back ------------------------------------------------------------

/// A drag that is taken back.
#[derive(Debug, PartialEq, Eq)]
pub enum DragCancel {
    /// A tab within its strip.
    Tab,
    /// A window that was torn off as a tab.
    Remote { change: TabDetach, hinted: bool },
    /// A window by its title.
    Window { window: WindowId, rect: Rect, hinted: bool },
}

/// What is done for a drag that is taken back.
#[derive(Debug, PartialEq, Eq)]
pub struct CancelSteps {
    /// Put the light of the window out that was lit.
    pub clear_hint: bool,
    pub command: Option<Command>,
    /// The window that goes back to where it was.
    pub restore: Option<(WindowId, Rect)>,
}

/// What is done for a drag that is taken back: a torn-off tab goes back to its host, and a window
/// to its place.
pub fn cancel_drag(cancel: DragCancel) -> (r: CancelSteps)
    ensures
        match cancel {
            DragCancel::Tab => !r.clear_hint && r.command is None && r.restore is None,
            DragCancel::Remote { change, hinted } => r.clear_hint == hinted && r.command == Some(
                Command::CancelDetach { change },
            ) && r.restore is None,
            DragCancel::Window { window, rect, hinted } => r.clear_hint == hinted && r.command
                is None && r.restore == Some((window, rect)),
        },
{
    match cancel {
        DragCancel::Tab => CancelSteps { clear_hint: false, command: None, restore: None },
        DragCancel::Remote { change, hinted } => CancelSteps {
            clear_hint: hinted,
            command: Some(Command::CancelDetach { change }),
            restore: None,
        },
        DragCancel::Window { window, rect, hinted } => CancelSteps {
            clear_hint: hinted,
            command: None,
            restore: Some((window, rect)),
        },
    }
}

/// A corner is the meeting of two edges, and a point near one edge only is on that edge.
pub proof fn corners_are_where_edges_meet(left: bool, right: bool, top: bool, bottom: bool)
    requires
        !(left && right),
        !(top && bottom),
    ensures
        ({
            let e = edge_of(left, right, top, bottom);
            &&& e == Some(Hit::TopLeft) <==> top && left
            &&& e == Some(Hit::TopRight) <==> top && right
            &&& e == Some(Hit::BottomLeft) <==> bottom && left
            &&& e == Some(Hit::BottomRight) <==> bottom && right
            &&& e == Some(Hit::Left) <==> left && !top && !bottom
            &&& e == Some(Hit::Right) <==> right && !top && !bottom
            &&& e == Some(Hit::Top) <==> top && !left && !right
            &&& e == Some(Hit::Bottom) <==> bottom && !left && !right
            &&& e is None <==> !left && !right && !top && !bottom
        }),
{
}

/// Away from its edges a window is its title row and, below that, its contents; a control in the
/// title row is for the contents too.
pub proof fn a_window_is_title_and_contents(x: int, y: int, f: Frame, on_control: bool)
    requires
        f.border >= 0,
        f.rect.left + f.border <= x < f.rect.right - f.border,
        f.rect.top + f.border <= y < f.rect.bottom - f.border,
        !f.rolled,
    ensures
        y < f.rect.top + f.title_h && !on_control ==> hit_of(x, y, f, on_control) is Caption,
        y < f.rect.top + f.title_h && on_control ==> hit_of(x, y, f, on_control) is Client,
        y >= f.rect.top + f.title_h ==> hit_of(x, y, f, on_control) is Client,
{
}

/// A window that is neither locked nor rolled up can be sized at each of its edges.
pub proof fn open_windows_are_sized_at_their_edges(x: int, y: int, f: Frame)
    requires
        is_inside(x, y, f.rect),
        !f.locked,
        !f.rolled,
        f.border > 0,
        2 * f.border <= width_of(f.rect),
        2 * f.border <= height_of(f.rect),
    ensures
        ({
            let h = hit_of(x, y, f, false);
            let left = x < f.rect.left + f.border;
            let right = x >= f.rect.right - f.border;
            let top = y < f.rect.top + f.border;
            let bottom = y >= f.rect.bottom - f.border;
            &&& h is TopLeft <==> left && top
            &&& h is TopRight <==> right && top
            &&& h is BottomLeft <==> left && bottom
            &&& h is BottomRight <==> right && bottom
            &&& h is Left <==> left && !top && !bottom
            &&& h is Right <==> right && !top && !bottom
            &&& h is Top <==> top && !left && !right
            &&& h is Bottom <==> bottom && !left && !right
        }),
{
}

/// A press becomes a drag once the pointer went further than the threshold on either axis with the
/// button down.
pub proof fn a_press_becomes_a_drag_when_it_moves(
    t: TitleBar,
    at: (i32, i32),
    button_down: bool,
    threshold: (i32, i32),
    from: (i32, i32),
    dx: int,
    dy: int,
)
    requires
        threshold.0 >= 0,
        threshold.1 >= 0,
        dx >= 0,
        dy >= 0,
        at.0 == from.0 + dx || at.0 == from.0 - dx,
        at.1 == from.1 + dy || at.1 == from.1 - dy,
    ensures
        t.click_pending == Some(from) ==> (becomes_drag(t, at, button_down, threshold) <==> button_down
            && (dx > threshold.0 || dy > threshold.1)),
        t.click_pending is None ==> !becomes_drag(t, at, button_down, threshold),
{
}

/// A rolled-up window is peeked into on hover where that is wanted and nothing else goes on; where
/// a click expands it, hovering does not.
pub proof fn only_quiet_rolled_windows_are_peeked_into(t: TitleBar, s: TitleSight)
    ensures
        may_peek(t, s) ==> s.rolled_up && s.hover_peek && !t.peeking && !s.menu_open && !s.in_size_move
            && !s.rolling,
        s.click_to_expand ==> !may_peek(t, s),
        s.rolled_up && s.hover_peek && !s.click_to_expand && !t.peeking && !s.menu_open
            && !s.in_size_move && !s.rolling ==> may_peek(t, s),
        click_expands(t, s) ==> s.click_to_expand && s.rolled_up,
        s.click_to_expand && s.rolled_up && !t.peeking && !s.rolling ==> click_expands(t, s),
        !(may_peek(t, s) && click_expands(t, s)),
{
}

/// A double click keeps a peeked window open, and rolls any other one up or down; after a click
/// that expanded the window it does nothing.
pub proof fn a_double_click_keeps_a_peek_open(t: TitleBar, fence: FenceId)
    ensures
        t.suppress_dblclk <==> double_command(t, fence) is None,
        !t.suppress_dblclk && t.peeking ==> double_command(t, fence) == Some(
            Command::CommitExpanded(fence),
        ),
        !t.suppress_dblclk && !t.peeking ==> double_command(t, fence) == Some(
            Command::ToggleRollUp(fence),
        ),
        t.click_pending is None ==> release_command(t, fence) is None && after_release(t) == t,
        after_release(t).click_pending is None,
        after_release(t).peeking == t.peeking && after_release(t).peek_armed == t.peek_armed,
{
}

/// A window was moved where it has the same size at another place and the move was not broken off.
pub proof fn only_whole_moves_count(from: Rect, to: Rect, escaped: bool)
    ensures
        was_moved(from, to, escaped) <==> !escaped && to.right - to.left == from.right - from.left
            && to.bottom - to.top == from.bottom - from.top && (to.left != from.left || to.top
            != from.top),
{
}

/// The edges that a drag moves are told by their numbers: left, top, and the corners of either.
pub proof fn edges_are_told_by_their_numbers(edge: usize)
    ensures
        drags_left(edge) <==> edge == 1 || edge == 4 || edge == 7,
        drags_top(edge) <==> edge == 3 || edge == 4 || edge == 5,
{
}

/// A rolled-up window has the height of its title row however it is sized.
pub proof fn a_rolled_window_keeps_its_title_height(title_h: int, snapped_h: Option<i32>)
    ensures
        sized_height(true, title_h, snapped_h) == Some(title_h),
        snapped_h is Some ==> sized_height(false, title_h, snapped_h) == Some(snapped_h->0 as int),
        snapped_h is None ==> sized_height(false, title_h, snapped_h) is None,
{
}

/// A press on the title of a locked window does nothing, and one beside the title is passed on; a
/// rolled-up window that a click expands waits for the release.
pub proof fn a_locked_title_takes_no_press(
    t: &mut TitleBar,
    s: &TitleSight,
    caption: bool,
    at: (i32, i32),
    rect: &Rect,
    r: TitlePress,
)
    requires
        call_ensures(TitleBar::pressed, (t, s, caption, at, rect), r),
    ensures
        !caption ==> r is Pass,
        caption && s.locked ==> r is Swallow,
        caption && !s.locked && s.own_drag ==> r is OwnDrag,
        caption && !s.locked && !s.own_drag && s.click_to_expand && s.rolled_up && !old(t).peeking
            && !s.rolling ==> r is Swallow && final(t).click_pending == Some(at),
        !final(t).peek_armed && !final(t).suppress_dblclk && final(t).peeking == old(t).peeking,
{
}

/// A window follows the pointer; the window it is over is told when that changes, and when the
/// pointer moves along it.
pub proof fn a_moving_window_tells_what_it_is_over(
    m: &mut SizeMove,
    rect: &Rect,
    cursor: (i32, i32),
    target: WindowId,
    snapping: bool,
    r: MoveStep,
)
    requires
        call_ensures(SizeMove::moving, (m, rect, cursor, target, snapping), r),
    ensures
        r.snap ==> target == 0 && snapping,
        target != old(m).merge_target ==> r.hint == Some(Command::MergeHint { target, x: cursor.0 }),
        target == old(m).merge_target && target != 0 && cursor.0 != old(m).merge_x ==> r.hint is Some,
        target == 0 && old(m).merge_target == 0 ==> r.hint is None,
        final(m).merge_target == target,
        final(m).grab == old(m).grab && final(m).at_enter == old(m).at_enter,
{
}

/// At the end of a move nothing is lit any more; the window merges with the one under it where it
/// was moved, and an open one keeps its new height.
pub proof fn a_move_ends_with_nothing_lit(
    m: &mut SizeMove,
    rect: &Rect,
    escaped: bool,
    under: Option<WindowId>,
    rolled_up: bool,
    height_changing: bool,
    peeking: bool,
    r: MoveEnd,
)
    requires
        call_ensures(
            SizeMove::exit,
            (m, rect, escaped, under, rolled_up, height_changing, peeking),
            r,
        ),
    ensures
        final(m).merge_target == 0 && !final(m).active,
        r.clear_hint <==> old(m).merge_target != 0,
        escaped ==> r.merge_into is None,
        old(m).at_enter == *rect ==> r.merge_into is None,
        r.merge_into is Some ==> r.merge_into == under,
        rolled_up || height_changing ==> r.expanded_h is None,
        fits(rect.bottom - rect.top) && !rolled_up && !height_changing ==> r.expanded_h == Some(
            (rect.bottom - rect.top) as i32,
        ),
        r.close_timer == peeking,
{
}

} // verus!
