//! The messages that a fence window gets, and who answers them.

use vstd::prelude::*;

verus! {

// ---- messages -----------------------------------------------------------------------------

/// A message to a fence window.
#[derive(Clone, Copy, Debug, PartialEq, Eq, Structural)]
pub enum Message {
    /// A press asks whether it activates the window.
    MouseActivate,
    Close,
    EraseBackground,
    /// The frame around the client area is to be calculated.
    CalculateFrame,
    PaintFrame,
    ActivateFrame,
    PositionChanging,
    HitTest,
    SetCursor,
    FrameMouseMove,
    FrameMouseLeave,
    Activate,
    KillFocus,
    FrameButtonDown,
    FrameButtonUp,
    FrameDoubleClick,
    FrameRightUp,
    MouseMove,
    MouseLeave,
    ButtonDown,
    ButtonUp,
    CaptureChanged,
    KeyDown,
    Char,
    SystemKeyDown,
    ContextMenu,
    DoubleClick,
    RightDown,
    RightUp,
    MouseWheel,
    Size,
    Move,
    ShowWindow,
    /// The window is to be shown or hidden.
    SetVisible,
    /// The contents of another tab have come in.
    TabSwapDone,
    /// The window has faded.
    FadeDone,
    EnterSizeMove,
    ExitSizeMove,
    Timer,
    EnterMenuLoop,
    ExitMenuLoop,
    SystemCommand,
    Sizing,
    Moving,
    DpiChanged,
    Destroy,
    /// The limits of the window's size are asked for.
    MinMaxInfo,
}

/// The number of a message.
pub open spec fn code_of(m: Message) -> u32 {
    match m {
        Message::MouseActivate => 33,
        Message::Close => 16,
        Message::EraseBackground => 20,
        Message::CalculateFrame => 131,
        Message::PaintFrame => 133,
        Message::ActivateFrame => 134,
        Message::PositionChanging => 70,
        Message::HitTest => 132,
        Message::SetCursor => 32,
        Message::FrameMouseMove => 160,
        Message::FrameMouseLeave => 674,
        Message::Activate => 6,
        Message::KillFocus => 8,
        Message::FrameButtonDown => 161,
        Message::FrameButtonUp => 162,
        Message::FrameDoubleClick => 163,
        Message::FrameRightUp => 165,
        Message::MouseMove => 512,
        Message::MouseLeave => 675,
        Message::ButtonDown => 513,
        Message::ButtonUp => 514,
        Message::CaptureChanged => 533,
        Message::KeyDown => 256,
        Message::Char => 258,
        Message::SystemKeyDown => 260,
        Message::ContextMenu => 123,
        Message::DoubleClick => 515,
        Message::RightDown => 516,
        Message::RightUp => 517,
        Message::MouseWheel => 522,
        Message::Size => 5,
        Message::Move => 3,
        Message::ShowWindow => 24,
        Message::SetVisible => 32778,
        Message::TabSwapDone => 32777,
        Message::FadeDone => 32776,
        Message::EnterSizeMove => 561,
        Message::ExitSizeMove => 562,
        Message::Timer => 275,
        Message::EnterMenuLoop => 529,
        Message::ExitMenuLoop => 530,
        Message::SystemCommand => 274,
        Message::Sizing => 532,
        Message::Moving => 534,
        Message::DpiChanged => 736,
        Message::Destroy => 2,
        Message::MinMaxInfo => 36,
    }
}

impl Message {
    /// The message with the number; none for a message that a fence window leaves to the system.
    pub fn of(code: u32) -> (r: Option<Message>)
        ensures
            r matches Some(m) ==> code_of(m) == code,
            r is None ==> forall|m: Message| code_of(m) != code,
    {
        if code == 33 {
            Some(Message::MouseActivate)
        } else if code == 16 {
            Some(Message::Close)
        } else if code == 20 {
            Some(Message::EraseBackground)
        } else if code == 131 {
            Some(Message::CalculateFrame)
        } else if code == 133 {
            Some(Message::PaintFrame)
        } else if code == 134 {
            Some(Message::ActivateFrame)
        } else if code == 70 {
            Some(Message::PositionChanging)
        } else if code == 132 {
            Some(Message::HitTest)
        } else if code == 32 {
            Some(Message::SetCursor)
        } else if code == 160 {
            Some(Message::FrameMouseMove)
        } else if code == 674 {
            Some(Message::FrameMouseLeave)
        } else if code == 6 {
            Some(Message::Activate)
        } else if code == 8 {
            Some(Message::KillFocus)
        } else if code == 161 {
            Some(Message::FrameButtonDown)
        } else if code == 162 {
            Some(Message::FrameButtonUp)
        } else if code == 163 {
            Some(Message::FrameDoubleClick)
        } else if code == 165 {
            Some(Message::FrameRightUp)
        } else if code == 512 {
            Some(Message::MouseMove)
        } else if code == 675 {
            Some(Message::MouseLeave)
        } else if code == 513 {
            Some(Message::ButtonDown)
        } else if code == 514 {
            Some(Message::ButtonUp)
        } else if code == 533 {
            Some(Message::CaptureChanged)
        } else if code == 256 {
            Some(Message::KeyDown)
        } else if code == 258 {
            Some(Message::Char)
        } else if code == 260 {
            Some(Message::SystemKeyDown)
        } else if code == 123 {
            Some(Message::ContextMenu)
        } else if code == 515 {
            Some(Message::DoubleClick)
        } else if code == 516 {
            Some(Message::RightDown)
        } else if code == 517 {
            Some(Message::RightUp)
        } else if code == 522 {
            Some(Message::MouseWheel)
        } else if code == 5 {
            Some(Message::Size)
        } else if code == 3 {
            Some(Message::Move)
        } else if code == 24 {
            Some(Message::ShowWindow)
        } else if code == 32778 {
            Some(Message::SetVisible)
        } else if code == 32777 {
            Some(Message::TabSwapDone)
        } else if code == 32776 {
            Some(Message::FadeDone)
        } else if code == 561 {
            Some(Message::EnterSizeMove)
        } else if code == 562 {
            Some(Message::ExitSizeMove)
        } else if code == 275 {
            Some(Message::Timer)
        } else if code == 529 {
            Some(Message::EnterMenuLoop)
        } else if code == 530 {
            Some(Message::ExitMenuLoop)
        } else if code == 274 {
            Some(Message::SystemCommand)
        } else if code == 532 {
            Some(Message::Sizing)
        } else if code == 534 {
            Some(Message::Moving)
        } else if code == 736 {
            Some(Message::DpiChanged)
        } else if code == 2 {
            Some(Message::Destroy)
        } else if code == 36 {
            Some(Message::MinMaxInfo)
        } else {
            None
        }
    }
}

/// No two messages have the same number.
pub proof fn codes_tell_messages_apart(a: Message, b: Message)
    ensures
        code_of(a) == code_of(b) ==> a == b,
{
}

// ---- who answers --------------------------------------------------------------------------

/// What the timers of a fence window are for.
#[derive(Clone, Copy, Debug, PartialEq, Eq, Structural)]
pub enum ViewTimer {
    Rename,
    VisibilityFinish,
    ContentFinish,
    Tip,
    TipHide,
    ScrollRepeat,
    ScrollbarExpand,
    ScrollbarContract,
    PeekOpen,
    DragPeek,
    Scrollbar,
    Shadow,
    PeekClose,
}

/// The messages that the system gives a number when it starts; 0 where it gave none.
#[derive(Clone, Copy, Debug, PartialEq, Eq, Structural)]
pub struct Registered {
    /// A drag asks for its picture.
    pub drag_image: u32,
    /// The taskbar was made anew.
    pub taskbar_created: u32,
}

/// Who answers a message.
#[derive(Clone, Copy, Debug, PartialEq, Eq, Structural)]
pub enum Answer {
    /// It is answered with a number, and nothing is done.
    Number(isize),
    /// The work for the message answers it.
    Work(Message),
    /// The work for the timer answers it.
    Timer(ViewTimer),
    /// A transition of the window has ended.
    Transition(ViewTimer),
    DragImage,
    TaskbarCreated,
    /// The system answers it.
    System,
}

/// The messages that come before those of registered numbers.
pub open spec fn is_early(m: Message, acrylic: bool) -> bool {
    ||| m == Message::MouseActivate
    ||| m == Message::Close
    ||| m == Message::EraseBackground
    ||| m == Message::CalculateFrame
    ||| m == Message::PaintFrame
    ||| m == Message::ActivateFrame && acrylic
    ||| m == Message::PositionChanging
    ||| m == Message::HitTest
    ||| m == Message::SetCursor
}

/// The answer to a message of the window's own: a press does not activate it, it is never closed
/// from outside, and it draws its background and its frame itself.
pub open spec fn own_answer(m: Message, timer: Option<ViewTimer>) -> Answer {
    match m {
        Message::MouseActivate => Answer::Number(3),
        Message::Close | Message::CalculateFrame | Message::PaintFrame => Answer::Number(0),
        Message::EraseBackground => Answer::Number(1),
        Message::ActivateFrame | Message::MinMaxInfo => Answer::Work(m),
        Message::Timer => match timer {
            Some(ViewTimer::VisibilityFinish) => Answer::Transition(ViewTimer::VisibilityFinish),
            Some(ViewTimer::ContentFinish) => Answer::Transition(ViewTimer::ContentFinish),
            Some(t) => Answer::Timer(t),
            None => Answer::System,
        },
        _ => Answer::Work(m),
    }
}

/// A window answers the message itself.
pub open spec fn has_answer(m: Message, timer: Option<ViewTimer>, acrylic: bool) -> bool {
    match m {
        Message::ActivateFrame => acrylic,
        Message::MinMaxInfo => false,
        Message::Timer => timer is Some,
        _ => true,
    }
}

/// The message with the number, where a window knows one.
pub open spec fn message_with(code: u32) -> Option<Message> {
    if exists|m: Message| code_of(m) == code {
        Some(choose|m: Message| code_of(m) == code)
    } else {
        None
    }
}

proof fn lemma_message_with(m: Message)
    ensures
        message_with(code_of(m)) == Some(m),
{
    let code = code_of(m);
    codes_tell_messages_apart(m, choose|x: Message| code_of(x) == code);
}

/// Who answers a message.
pub open spec fn answer_of(code: u32, timer: Option<ViewTimer>, ids: Registered, acrylic: bool) -> Answer {
    let m = message_with(code);
    if m is Some && is_early(m->0, acrylic) {
        own_answer(m->0, timer)
    } else if code == ids.drag_image && code != 0 {
        Answer::DragImage
    } else if m is Some && m->0 != Message::Destroy && has_answer(m->0, timer, acrylic) {
        own_answer(m->0, timer)
    } else if code == ids.taskbar_created && code != 0 {
        Answer::TaskbarCreated
    } else if m == Some(Message::Destroy) {
        Answer::Work(Message::Destroy)
    } else {
        Answer::System
    }
}

fn own(m: Message, timer: Option<ViewTimer>) -> (r: Answer)
    ensures
        r == own_answer(m, timer),
{
    match m {
        Message::MouseActivate => Answer::Number(3),
        Message::Close | Message::CalculateFrame | Message::PaintFrame => Answer::Number(0),
        Message::EraseBackground => Answer::Number(1),
        Message::Timer => match timer {
            Some(ViewTimer::VisibilityFinish) => Answer::Transition(ViewTimer::VisibilityFinish),
            Some(ViewTimer::ContentFinish) => Answer::Transition(ViewTimer::ContentFinish),
            Some(t) => Answer::Timer(t),
            None => Answer::System,
        },
        _ => Answer::Work(m),
    }
}

/// Who answers a message. `timer` is the timer that the message is from, `acrylic` that the window
/// is drawn on the wallpaper.
pub fn dispatch(code: u32, timer: Option<ViewTimer>, ids: &Registered, acrylic: bool) -> (r: Answer)
    ensures
        r == answer_of(code, timer, *ids, acrylic),
{
    let found = Message::of(code);
    proof {
        if let Some(m) = found {
            lemma_message_with(m);
        }
        assert(message_with(code) == found);
    }
    if let Some(m) = found {
        let early: bool = match m {
            Message::MouseActivate
            | Message::Close
            | Message::EraseBackground
            | Message::CalculateFrame
            | Message::PaintFrame
            | Message::PositionChanging
            | Message::HitTest
            | Message::SetCursor => true,
            Message::ActivateFrame => acrylic,
            _ => false,
        };
        if early {
            return own(m, timer);
        }
    }
    if code == ids.drag_image && code != 0 {
        return Answer::DragImage;
    }
    if let Some(m) = found {
        let answered: bool = match m {
            Message::ActivateFrame => acrylic,
            Message::MinMaxInfo | Message::Destroy => false,
            Message::Timer => timer.is_some(),
            _ => true,
        };
        if answered {
            return own(m, timer);
        }
    }
    if code == ids.taskbar_created && code != 0 {
        return Answer::TaskbarCreated;
    }
    match found {
        Some(Message::Destroy) => Answer::Work(Message::Destroy),
        _ => Answer::System,
    }
}

/// A fence window is never closed by a message to close it, and a press never activates it.
pub proof fn fences_are_furniture(timer: Option<ViewTimer>, ids: Registered, acrylic: bool)
    ensures
        answer_of(code_of(Message::Close), timer, ids, acrylic) == Answer::Number(0),
        answer_of(code_of(Message::MouseActivate), timer, ids, acrylic) == Answer::Number(3),
{
    lemma_message_with(Message::Close);
    lemma_message_with(Message::MouseActivate);
}

// ---- panels -------------------------------------------------------------------------------

/// A part of a panel that can be pressed, in the order in which the parts are drawn.
#[derive(Clone, Copy, Debug, PartialEq, Eq, Structural)]
pub struct HitNode {
    pub action: u64,
    /// The pointer is over it.
    pub under: bool,
}

/// The action of the uppermost part under the pointer.
pub open spec fn top_action(nodes: Seq<HitNode>) -> Option<u64>
    decreases nodes.len(),
{
    if nodes.len() == 0 {
        None
    } else if nodes.last().under {
        Some(nodes.last().action)
    } else {
        top_action(nodes.drop_last())
    }
}

/// The action of the uppermost part under the pointer.
pub fn action_at(nodes: &Vec<HitNode>) -> (r: Option<u64>)
    ensures
        r == top_action(nodes@),
{
    let mut i: usize = nodes.len();
    assert(nodes@.take(i as int) =~= nodes@);
    while i > 0
        invariant
            i <= nodes.len(),
            top_action(nodes@) == top_action(nodes@.take(i as int)),
        decreases i,
    {
        i = i - 1;
        assert(nodes@.take(i + 1).drop_last() =~= nodes@.take(i as int));
        if nodes[i].under {
            return Some(nodes[i].action);
        }
    }
    None
}

/// A press on a panel: the action, and the revision of the layout that it was made on.
#[derive(Clone, Copy, Debug, PartialEq, Eq)]
pub struct PanelPointer {
    pub pressed: Option<(u64, u64)>,
}

/// What a release on a panel comes to.
#[derive(Clone, Copy, Debug, PartialEq, Eq)]
pub enum PanelRelease {
    /// It is not for the panel.
    Pass,
    /// It is answered; the action is invoked where there is one.
    Done { invoke: Option<(u64, u64)> },
}

/// The action that a release invokes: the one that was pressed, where the pointer is over it still
/// and the layout has not changed.
pub open spec fn invoked(pressed: Option<(u64, u64)>, action: Option<u64>, revision: u64) -> Option<
    (u64, u64),
> {
    match pressed {
        Some(p) => if p.1 == revision && action == Some(p.0) {
            Some(p)
        } else {
            None
        },
        None => None,
    }
}

impl PanelPointer {
    pub fn new() -> (r: Self)
        ensures
            r.pressed is None,
    {
        PanelPointer { pressed: None }
    }

    /// The button is pressed below the title row. Returns whether the pointer is captured.
    pub fn down(&mut self, action: Option<u64>, revision: u64) -> (r: bool)
        ensures
            r == action is Some,
            final(self).pressed == match action {
                Some(a) => Some((a, revision)),
                None => None,
            },
    {
        self.pressed = match action {
            Some(a) => Some((a, revision)),
            None => None,
        };
        action.is_some()
    }

    /// The button is released, below the title row or above it.
    pub fn up(&mut self, action: Option<u64>, revision: u64, below_title: bool) -> (r: PanelRelease)
        ensures
            r == if below_title || old(self).pressed is Some {
                PanelRelease::Done { invoke: invoked(old(self).pressed, action, revision) }
            } else {
                PanelRelease::Pass
            },
            final(self).pressed is None,
    {
        let pressed = self.pressed;
        self.pressed = None;
        match pressed {
            Some(p) => {
                let over: bool = match action {
                    Some(a) => a == p.0,
                    None => false,
                };
                if p.1 == revision && over {
                    PanelRelease::Done { invoke: Some(p) }
                } else {
                    PanelRelease::Done { invoke: None }
                }
            },
            None => if below_title {
                PanelRelease::Done { invoke: None }
            } else {
                PanelRelease::Pass
            },
        }
    }

    /// The pointer is no longer captured.
    pub fn lost(&mut self)
        ensures
            final(self).pressed is None,
    {
        self.pressed = None;
    }
}

/// An action is invoked only by a press and a release on it in the same layout.
pub proof fn actions_need_press_and_release(
    pressed_on: Option<u64>,
    pressed_revision: u64,
    released_on: Option<u64>,
    revision: u64,
)
    ensures
        ({
            let p = match pressed_on {
                Some(a) => Some((a, pressed_revision)),
                None => None,
            };
            invoked(p, released_on, revision) is Some <==> pressed_on is Some && pressed_on
                == released_on && pressed_revision == revision
        }),
{
}

/// The action under the pointer is that of the node drawn last among those it is over.
pub proof fn the_topmost_node_is_pressed(nodes: Seq<HitNode>, i: int)
    requires
        0 <= i < nodes.len(),
        nodes[i].under,
        forall|j: int| i < j < nodes.len() ==> !(#[trigger] nodes[j]).under,
    ensures
        top_action(nodes) == Some(nodes[i].action),
    decreases nodes.len(),
{
    if i < nodes.len() - 1 {
        let n = nodes.len() - 1;
        assert(!nodes[n].under);
        the_topmost_node_is_pressed(nodes.drop_last(), i);
    }
}

/// Where the pointer is over no node, there is no action.
pub proof fn bare_ground_has_no_action(nodes: Seq<HitNode>)
    requires
        forall|j: int| 0 <= j < nodes.len() ==> !(#[trigger] nodes[j]).under,
    ensures
        top_action(nodes) is None,
    decreases nodes.len(),
{
    if nodes.len() > 0 {
        let n = nodes.len() - 1;
        assert(!nodes[n].under);
        bare_ground_has_no_action(nodes.drop_last());
    }
}

/// What is invoked is what was pressed.
pub proof fn what_was_pressed_is_invoked(
    pressed: Option<(u64, u64)>,
    action: Option<u64>,
    revision: u64,
)
    ensures
        invoked(pressed, action, revision) is Some ==> invoked(pressed, action, revision) == pressed
            && action == Some((pressed->0).0) && revision == (pressed->0).1,
        pressed is Some && action == Some((pressed->0).0) && revision == (pressed->0).1 ==> invoked(
            pressed,
            action,
            revision,
        ) == pressed,
{
}

/// A drag's picture and a new taskbar are told by the codes that were registered for them, which
/// are none of the messages' own; a timer that the view does not know is left to the system.
pub proof fn registered_codes_are_told_apart(
    code: u32,
    timer: Option<ViewTimer>,
    ids: Registered,
    acrylic: bool,
)
    requires
        forall|m: Message| #[trigger] code_of(m) != code,
    ensures
        code != 0 && code == ids.drag_image ==> answer_of(code, timer, ids, acrylic) is DragImage,
        code != 0 && code != ids.drag_image && code == ids.taskbar_created ==> answer_of(
            code,
            timer,
            ids,
            acrylic,
        ) is TaskbarCreated,
        code != ids.drag_image && code != ids.taskbar_created ==> answer_of(code, timer, ids, acrylic)
            is System,
        code == 0 ==> answer_of(code, timer, ids, acrylic) is System,
{
}

/// A timer of the view is answered by its own work, or as the end of a transition where it is one.
pub proof fn timers_are_answered_by_their_work(t: ViewTimer)
    ensures
        own_answer(Message::Timer, Some(t)) == if t is VisibilityFinish || t is ContentFinish {
            Answer::Transition(t)
        } else {
            Answer::Timer(t)
        },
        own_answer(Message::Timer, None) is System,
{
}

/// A press and a release on the same action of the same layout invoke it, once.
pub proof fn a_click_invokes_its_action(
    p: &mut PanelPointer,
    q: &mut PanelPointer,
    action: u64,
    revision: u64,
    below_title: bool,
    down: bool,
    up: PanelRelease,
)
    requires
        call_ensures(PanelPointer::down, (p, Some(action), revision), down),
        *old(q) == *final(p),
        call_ensures(PanelPointer::up, (q, Some(action), revision, below_title), up),
    ensures
        down,
        up == (PanelRelease::Done { invoke: Some((action, revision)) }),
        final(q).pressed is None,
{
}

} // verus!
