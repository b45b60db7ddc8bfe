//! The control window: which of its messages make the application work at once, which wait on a
//! timer, and which are put off because the application is busy in a modal loop.

use vstd::prelude::*;

verus! {

/// The first of a batch of folder changes is handled this soon.
pub const FS_DEBOUNCE_MS: u64 = 60;

/// The time between batches while changes keep streaming in.
pub const FS_STORM_MS: u64 = 400;

/// How soon commands, panel events and a peek's focus are tried again.
pub const RETRY_MS: u64 = 50;

/// How soon a frame is tried again.
pub const FRAME_RETRY_MS: u64 = 16;

/// How soon saving and a changed work area are tried again.
pub const SLOW_RETRY_MS: u64 = 500;

/// How long finished icons are gathered.
pub const ICONS_MS: u64 = 40;

/// How soon a batch of icons is tried again.
pub const ICONS_RETRY_MS: u64 = 100;

/// How long changes of the work area are gathered.
pub const WORKAREA_MS: u64 = 250;

/// How long after a change the configuration is saved.
pub const SAVE_MS: u64 = 800;

/// The timers of the control window.
#[derive(Clone, Copy, Debug, PartialEq, Eq, Structural)]
pub enum Timer {
    Save,
    Folders,
    Housekeeping,
    Icons,
    Wallpaper,
    WorkArea,
    CommandRetry,
    FrameRetry,
    Test,
    PeekFocusRetry,
    WallpaperPoll,
    DesktopId,
}

/// What the user did on the tray icon.
#[derive(Clone, Copy, Debug, PartialEq, Eq, Structural)]
pub enum TrayEvent {
    ContextMenu,
    Select,
    KeySelect,
    DoubleClick,
    Other,
}

/// What arrives at the control window.
#[derive(Clone, Copy, Debug, PartialEq, Eq, Structural)]
pub enum Signal {
    /// Commands are queued.
    Commands,
    /// A panel provider has something to say.
    PluginEvent,
    /// A peek's dimmer window has the focus.
    PeekFocused(usize),
    /// A watched folder changed.
    FoldersChanged,
    /// The shell says that the desktop changed.
    ShellChanged,
    /// A worker has finished an icon.
    IconReady,
    /// The peek hotkey was pressed.
    PeekHotkey,
    Tray(TrayEvent),
    Timer(Timer),
    /// The desktop wallpaper was set.
    WallpaperSet,
    /// The taskbar moved.
    WorkAreaSet,
    /// Any other system setting, or the theme, changed.
    SystemSettings,
    /// The compositor wants a frame.
    Frame,
    /// The wallpaper, or the desktop it belongs to, may have changed.
    WallpaperSignal,
    DisplayChanged,
    EndSession,
    Destroyed,
    /// None of the application's business.
    Other,
}

/// What the control window does about a signal.
#[derive(Clone, Copy, Debug, PartialEq, Eq, Structural)]
pub enum Reaction {
    SetTimer(Timer, u64),
    KillTimer(Timer),
    /// Post the signal to the window again.
    Post(Signal),
    /// Free what came with the shell's notice.
    ReleaseNotice,
    ProcessCommands,
    ProcessPanelEvents,
    FocusPeek(usize),
    ReadFolders,
    DrawIcons,
    TogglePeek,
    ShowTrayMenu,
    ToggleAllFences,
    Save,
    Housekeep,
    CheckWallpaper,
    /// Ask the schedule of wallpaper checks when to check next.
    WallpaperChecked,
    /// Tell the schedule of wallpaper checks that there was a signal.
    NotifyWallpaper,
    /// Try again after the schedule's first delay.
    WallpaperRetry,
    StepTest,
    RelayOut,
    ReadSystemSettings,
    DrawFrame,
    RestoreDesktopIcons,
}

/// What the window answers the sender: it handled the message, or not.
#[derive(Clone, Copy, Debug, PartialEq, Eq, Structural)]
pub enum Answer {
    Handled(i64),
    Unhandled,
}

/// What the control window remembers from one signal to the next.
#[derive(Clone, Copy, Debug, PartialEq, Eq, Structural)]
pub struct Control {
    /// A batch of folder changes is waiting.
    pub folders_armed: bool,
    /// When the last batch was done, in milliseconds.
    pub folders_done: Option<u64>,
    /// The dimmer window whose focus is still to be handled.
    pub peek_pending: Option<usize>,
    /// The identity of the virtual desktop.
    pub desktop: Option<u128>,
}

/// A batch of folder changes ran less than the storm time before `now`.
pub open spec fn in_storm(c: Control, now: u64) -> bool {
    c.folders_done matches Some(t) && now - t < FS_STORM_MS
}

/// What happens about a signal: the reactions in order, and what is remembered. `free` says that
/// the application can be used now, `desktop` which virtual desktop is shown where that is known.
pub open spec fn reacts(c: Control, s: Signal, now: u64, free: bool, desktop: Option<u128>) -> (
    Control,
    Seq<Reaction>,
) {
    match s {
        Signal::Commands => (
            c,
            if free {
                seq![Reaction::ProcessCommands]
            } else {
                seq![Reaction::SetTimer(Timer::CommandRetry, RETRY_MS)]
            },
        ),
        Signal::PluginEvent => (
            c,
            if free {
                seq![Reaction::ProcessPanelEvents]
            } else {
                seq![Reaction::SetTimer(Timer::CommandRetry, RETRY_MS)]
            },
        ),
        Signal::PeekFocused(w) => if free {
            (Control { peek_pending: None, ..c }, seq![Reaction::FocusPeek(w)])
        } else {
            (
                Control { peek_pending: Some(w), ..c },
                seq![Reaction::SetTimer(Timer::PeekFocusRetry, RETRY_MS)],
            )
        },
        Signal::FoldersChanged => folder_change(c, now),
        Signal::ShellChanged => (
            folder_change(c, now).0,
            seq![Reaction::ReleaseNotice] + folder_change(c, now).1,
        ),
        Signal::IconReady => (c, seq![Reaction::SetTimer(Timer::Icons, ICONS_MS)]),
        Signal::PeekHotkey => (c, when(free, seq![Reaction::TogglePeek])),
        Signal::Tray(e) => (
            c,
            when(
                free,
                match e {
                    TrayEvent::ContextMenu | TrayEvent::Select | TrayEvent::KeySelect => seq![
                        Reaction::ShowTrayMenu,
                    ],
                    TrayEvent::DoubleClick => seq![Reaction::ToggleAllFences],
                    TrayEvent::Other => Seq::empty(),
                },
            ),
        ),
        Signal::Timer(t) => timed(c, t, now, free, desktop),
        Signal::WallpaperSet => (c, seq![Reaction::NotifyWallpaper]),
        Signal::WallpaperSignal => (c, seq![Reaction::NotifyWallpaper]),
        Signal::WorkAreaSet => (c, seq![Reaction::SetTimer(Timer::WorkArea, WORKAREA_MS)]),
        Signal::SystemSettings => (c, when(free, seq![Reaction::ReadSystemSettings])),
        Signal::Frame => (
            c,
            if free {
                seq![Reaction::DrawFrame]
            } else {
                seq![Reaction::SetTimer(Timer::FrameRetry, FRAME_RETRY_MS)]
            },
        ),
        Signal::DisplayChanged => (c, when(free, seq![Reaction::RelayOut])),
        Signal::EndSession => (c, when(free, seq![Reaction::Save, Reaction::RestoreDesktopIcons])),
        Signal::Destroyed => (c, Seq::empty()),
        Signal::Other => (c, Seq::empty()),
    }
}

/// These reactions, where something holds, else none.
pub open spec fn when(holds: bool, rs: Seq<Reaction>) -> Seq<Reaction> {
    if holds {
        rs
    } else {
        Seq::empty()
    }
}

/// A folder changed: the first change of a batch sets the timer, later ones ride along.
pub open spec fn folder_change(c: Control, now: u64) -> (Control, Seq<Reaction>) {
    if c.folders_armed {
        (c, Seq::empty())
    } else {
        (
            Control { folders_armed: true, ..c },
            seq![
                Reaction::SetTimer(
                    Timer::Folders,
                    if in_storm(c, now) {
                        FS_STORM_MS
                    } else {
                        FS_DEBOUNCE_MS
                    },
                ),
            ],
        )
    }
}

/// A timer ran out.
pub open spec fn timed(c: Control, t: Timer, now: u64, free: bool, desktop: Option<u128>) -> (
    Control,
    Seq<Reaction>,
) {
    match t {
        Timer::Save => (
            c,
            if free {
                seq![Reaction::KillTimer(t), Reaction::Save]
            } else {
                seq![Reaction::SetTimer(t, SLOW_RETRY_MS)]
            },
        ),
        Timer::Folders => if free {
            (
                Control { folders_armed: false, ..c },
                seq![Reaction::KillTimer(t), Reaction::ReadFolders],
            )
        } else {
            (c, seq![Reaction::SetTimer(t, FS_STORM_MS)])
        },
        Timer::Housekeeping => (c, when(free, seq![Reaction::Housekeep])),
        Timer::Icons => (
            c,
            if free {
                seq![Reaction::KillTimer(t), Reaction::DrawIcons]
            } else {
                seq![Reaction::SetTimer(t, ICONS_RETRY_MS)]
            },
        ),
        Timer::Wallpaper => (
            c,
            if free {
                seq![
                    Reaction::KillTimer(t),
                    Reaction::CheckWallpaper,
                    Reaction::WallpaperChecked,
                ]
            } else {
                seq![Reaction::KillTimer(t), Reaction::WallpaperRetry]
            },
        ),
        Timer::WallpaperPoll => (c, when(free, seq![Reaction::CheckWallpaper])),
        Timer::DesktopId => if desktop is Some && desktop != c.desktop {
            (Control { desktop, ..c }, seq![Reaction::NotifyWallpaper])
        } else {
            (c, Seq::empty())
        },
        Timer::CommandRetry => (c, seq![Reaction::KillTimer(t), Reaction::Post(Signal::Commands)]),
        Timer::FrameRetry => (c, seq![Reaction::KillTimer(t), Reaction::Post(Signal::Frame)]),
        Timer::PeekFocusRetry => match c.peek_pending {
            None => (c, seq![Reaction::KillTimer(t)]),
            Some(w) => if free {
                (
                    Control { peek_pending: None, ..c },
                    seq![Reaction::KillTimer(t), Reaction::FocusPeek(w)],
                )
            } else {
                (c, seq![Reaction::KillTimer(t), Reaction::SetTimer(t, RETRY_MS)])
            },
        },
        Timer::Test => (c, when(free, seq![Reaction::StepTest])),
        Timer::WorkArea => (
            c,
            if free {
                seq![Reaction::KillTimer(t), Reaction::RelayOut]
            } else {
                seq![Reaction::KillTimer(t), Reaction::SetTimer(t, SLOW_RETRY_MS)]
            },
        ),
    }
}

/// What the sender of a signal is answered.
pub open spec fn answer_to(s: Signal) -> Answer {
    match s {
        Signal::WallpaperSet | Signal::WorkAreaSet | Signal::SystemSettings | Signal::Other =>
            Answer::Unhandled,
        Signal::EndSession => Answer::Handled(1),
        _ => Answer::Handled(0),
    }
}

/// What the sender of a signal is answered.
pub fn answer(s: Signal) -> (r: Answer)
    ensures
        r == answer_to(s),
{
    match s {
        Signal::WallpaperSet | Signal::WorkAreaSet | Signal::SystemSettings | Signal::Other =>
            Answer::Unhandled,
        Signal::EndSession => Answer::Handled(1),
        _ => Answer::Handled(0),
    }
}

impl Control {
    pub fn new(desktop: Option<u128>) -> (r: Self)
        ensures
            r == (Control {
                folders_armed: false,
                folders_done: None,
                peek_pending: None,
                desktop,
            }),
    {
        Control { folders_armed: false, folders_done: None, peek_pending: None, desktop }
    }

    /// Notes that a batch of folder changes is done.
    pub fn folders_read(&mut self, now: u64)
        ensures
            *final(self) == (Control { folders_done: Some(now), ..*old(self) }),
    {
        self.folders_done = Some(now);
    }

    fn on_folder_change(&mut self, now: u64) -> (r: Option<Reaction>)
        ensures
            *final(self) == folder_change(*old(self), now).0,
            folder_change(*old(self), now).1 == match r {
                Some(a) => seq![a],
                None => Seq::empty(),
            },
    {
        if self.folders_armed {
            return None;
        }
        self.folders_armed = true;
        let storm: bool = match self.folders_done {
            Some(t) => now < t || now - t < FS_STORM_MS,
            None => false,
        };
        let delay: u64 = if storm {
            FS_STORM_MS
        } else {
            FS_DEBOUNCE_MS
        };
        Some(Reaction::SetTimer(Timer::Folders, delay))
    }

    fn on_timer(&mut self, t: Timer, now: u64, free: bool, desktop: Option<u128>) -> (r: Vec<
        Reaction,
    >)
        ensures
            *final(self) == timed(*old(self), t, now, free, desktop).0,
            r@ == timed(*old(self), t, now, free, desktop).1,
    {
        match t {
            Timer::Save => if free {
                vec![Reaction::KillTimer(t), Reaction::Save]
            } else {
                vec![Reaction::SetTimer(t, SLOW_RETRY_MS)]
            },
            Timer::Folders => if free {
                self.folders_armed = false;
                vec![Reaction::KillTimer(t), Reaction::ReadFolders]
            } else {
                vec![Reaction::SetTimer(t, FS_STORM_MS)]
            },
            Timer::Housekeeping => only_if(free, Reaction::Housekeep),
            Timer::Icons => if free {
                vec![Reaction::KillTimer(t), Reaction::DrawIcons]
            } else {
                vec![Reaction::SetTimer(t, ICONS_RETRY_MS)]
            },
            Timer::Wallpaper => if free {
                vec![Reaction::KillTimer(t), Reaction::CheckWallpaper, Reaction::WallpaperChecked]
            } else {
                vec![Reaction::KillTimer(t), Reaction::WallpaperRetry]
            },
            Timer::WallpaperPoll => only_if(free, Reaction::CheckWallpaper),
            Timer::DesktopId => {
                let changed: bool = match (desktop, self.desktop) {
                    (Some(seen), Some(known)) => seen != known,
                    (Some(_), None) => true,
                    (None, _) => false,
                };
                if changed {
                    self.desktop = desktop;
                }
                only_if(changed, Reaction::NotifyWallpaper)
            },
            Timer::CommandRetry => vec![Reaction::KillTimer(t), Reaction::Post(Signal::Commands)],
            Timer::FrameRetry => vec![Reaction::KillTimer(t), Reaction::Post(Signal::Frame)],
            Timer::PeekFocusRetry => match self.peek_pending {
                None => vec![Reaction::KillTimer(t)],
                Some(w) => if free {
                    self.peek_pending = None;
                    vec![Reaction::KillTimer(t), Reaction::FocusPeek(w)]
                } else {
                    vec![Reaction::KillTimer(t), Reaction::SetTimer(t, RETRY_MS)]
                },
            },
            Timer::Test => only_if(free, Reaction::StepTest),
            Timer::WorkArea => if free {
                vec![Reaction::KillTimer(t), Reaction::RelayOut]
            } else {
                vec![Reaction::KillTimer(t), Reaction::SetTimer(t, SLOW_RETRY_MS)]
            },
        }
    }

    /// What to do about a signal that arrives at `now`, in milliseconds. `free` says that the
    /// application can be used now, `desktop` which virtual desktop is shown.
    pub fn react(&mut self, s: Signal, now: u64, free: bool, desktop: Option<u128>) -> (r: Vec<
        Reaction,
    >)
        ensures
            *final(self) == reacts(*old(self), s, now, free, desktop).0,
            r@ == reacts(*old(self), s, now, free, desktop).1,
    {
        match s {
            Signal::Commands => either(
                free,
                Reaction::ProcessCommands,
                Reaction::SetTimer(Timer::CommandRetry, RETRY_MS),
            ),
            Signal::PluginEvent => either(
                free,
                Reaction::ProcessPanelEvents,
                Reaction::SetTimer(Timer::CommandRetry, RETRY_MS),
            ),
            Signal::PeekFocused(w) => {
                self.peek_pending = if free {
                    None
                } else {
                    Some(w)
                };
                either(
                    free,
                    Reaction::FocusPeek(w),
                    Reaction::SetTimer(Timer::PeekFocusRetry, RETRY_MS),
                )
            },
            Signal::FoldersChanged => {
                let mut out: Vec<Reaction> = Vec::new();
                if let Some(a) = self.on_folder_change(now) {
                    out.push(a);
                }
                out
            },
            Signal::ShellChanged => {
                let mut out: Vec<Reaction> = vec![Reaction::ReleaseNotice];
                if let Some(a) = self.on_folder_change(now) {
                    out.push(a);
                }
                assert(out@ =~= reacts(*old(self), s, now, free, desktop).1);
                out
            },
            Signal::IconReady => vec![Reaction::SetTimer(Timer::Icons, ICONS_MS)],
            Signal::PeekHotkey => only_if(free, Reaction::TogglePeek),
            Signal::Tray(e) => match e {
                TrayEvent::ContextMenu | TrayEvent::Select | TrayEvent::KeySelect => only_if(
                    free,
                    Reaction::ShowTrayMenu,
                ),
                TrayEvent::DoubleClick => only_if(free, Reaction::ToggleAllFences),
                TrayEvent::Other => Vec::new(),
            },
            Signal::Timer(t) => self.on_timer(t, now, free, desktop),
            Signal::WallpaperSet => vec![Reaction::NotifyWallpaper],
            Signal::WallpaperSignal => vec![Reaction::NotifyWallpaper],
            Signal::WorkAreaSet => vec![Reaction::SetTimer(Timer::WorkArea, WORKAREA_MS)],
            Signal::SystemSettings => only_if(free, Reaction::ReadSystemSettings),
            Signal::Frame => either(
                free,
                Reaction::DrawFrame,
                Reaction::SetTimer(Timer::FrameRetry, FRAME_RETRY_MS),
            ),
            Signal::DisplayChanged => only_if(free, Reaction::RelayOut),
            Signal::EndSession => {
                let mut out = only_if(free, Reaction::Save);
                if free {
                    out.push(Reaction::RestoreDesktopIcons);
                }
                assert(out@ =~= reacts(*old(self), s, now, free, desktop).1);
                out
            },
            Signal::Destroyed => Vec::new(),
            Signal::Other => Vec::new(),
        }
    }
}

fn only_if(holds: bool, a: Reaction) -> (r: Vec<Reaction>)
    ensures
        r@ == when(holds, seq![a]),
{
    if holds {
        vec![a]
    } else {
        Vec::new()
    }
}

fn either(holds: bool, a: Reaction, b: Reaction) -> (r: Vec<Reaction>)
    ensures
        r@ == if holds {
            seq![a]
        } else {
            seq![b]
        },
{
    if holds {
        vec![a]
    } else {
        vec![b]
    }
}

// ---- laws ---------------------------------------------------------------------------------

/// The work that a signal asks for, where it has to be done sooner or later.
pub open spec fn work_of(c: Control, s: Signal) -> Option<Reaction> {
    match s {
        Signal::Commands => Some(Reaction::ProcessCommands),
        Signal::Frame => Some(Reaction::DrawFrame),
        Signal::PeekFocused(w) => Some(Reaction::FocusPeek(w)),
        Signal::Timer(Timer::Save) => Some(Reaction::Save),
        Signal::Timer(Timer::Folders) => Some(Reaction::ReadFolders),
        Signal::Timer(Timer::Icons) => Some(Reaction::DrawIcons),
        Signal::Timer(Timer::WorkArea) => Some(Reaction::RelayOut),
        Signal::Timer(Timer::PeekFocusRetry) => match c.peek_pending {
            Some(w) => Some(Reaction::FocusPeek(w)),
            None => None,
        },
        _ => None,
    }
}

/// The timer leads to the work, as soon as it runs out while the application is free: at once, or
/// by a signal that the window posts to itself.
pub open spec fn leads_to(c: Control, t: Timer, now: u64, work: Reaction) -> bool {
    let (next, rs) = reacts(c, Signal::Timer(t), now, true, None);
    rs.contains(work) || exists|s: Signal| #[trigger]
        rs.contains(Reaction::Post(s)) && reacts(next, s, now, true, None).1.contains(work)
}

/// Nothing that has to be done is lost because the application is busy: the signal sets a timer
/// that leads to the same work.
pub proof fn busy_work_is_put_off(c: Control, s: Signal, now: u64, later: u64)
    requires
        work_of(c, s) is Some,
    ensures
        ({
            let (next, rs) = reacts(c, s, now, false, None);
            exists|t: Timer, ms: u64| #[trigger]
                rs.contains(Reaction::SetTimer(t, ms)) && leads_to(next, t, later, work_of(c, s)->0)
        }),
{
    let (next, rs) = reacts(c, s, now, false, None);
    let work = work_of(c, s)->0;
    let last = rs.len() - 1;
    assert(rs.contains(rs[last]));
    let (t, ms) = (rs[last]->SetTimer_0, rs[last]->SetTimer_1);
    assert(rs[last] == Reaction::SetTimer(t, ms));
    let (after, again) = reacts(next, Signal::Timer(t), later, true, None);
    assert(again.contains(again[again.len() - 1]));
    if again.last() is Post {
        let p = again.last()->Post_0;
        let third = reacts(after, p, later, true, None).1;
        assert(third.contains(third[0]));
        assert(again.contains(Reaction::Post(p)));
    }
}

/// A change of a folder is handled within the storm time: while a batch is waiting further changes
/// do not put it off, and it never waits longer than that.
pub proof fn folder_changes_are_never_put_off(c: Control, now: u64)
    ensures
        c.folders_armed ==> folder_change(c, now) == (c, Seq::<Reaction>::empty()),
        !c.folders_armed ==> folder_change(c, now).1.len() == 1 && (folder_change(c, now).1[0]
            matches Reaction::SetTimer(t, ms) && t == Timer::Folders && FS_DEBOUNCE_MS <= ms
            <= FS_STORM_MS),
        folder_change(c, now).0.folders_armed,
{
}

/// Each piece of work is done for its own signals, when nothing else is under way, and for no
/// other signal.
pub proof fn every_signal_does_its_own_work(
    c: Control,
    s: Signal,
    now: u64,
    free: bool,
    desktop: Option<u128>,
)
    ensures
        ({
            let rs = reacts(c, s, now, free, desktop).1;
            &&& rs.contains(Reaction::ProcessCommands) <==> free && s is Commands
            &&& rs.contains(Reaction::ProcessPanelEvents) <==> free && s is PluginEvent
            &&& rs.contains(Reaction::TogglePeek) <==> free && s is PeekHotkey
            &&& rs.contains(Reaction::ToggleAllFences) <==> free && s == Signal::Tray(
                TrayEvent::DoubleClick,
            )
            &&& rs.contains(Reaction::ShowTrayMenu) <==> free && (s == Signal::Tray(
                TrayEvent::ContextMenu,
            ) || s == Signal::Tray(TrayEvent::Select) || s == Signal::Tray(TrayEvent::KeySelect))
            &&& rs.contains(Reaction::Save) <==> free && (s is EndSession || s == Signal::Timer(
                Timer::Save,
            ))
            &&& rs.contains(Reaction::RestoreDesktopIcons) <==> free && s is EndSession
            &&& rs.contains(Reaction::ReadFolders) <==> free && s == Signal::Timer(Timer::Folders)
            &&& rs.contains(Reaction::DrawIcons) <==> free && s == Signal::Timer(Timer::Icons)
            &&& rs.contains(Reaction::Housekeep) <==> free && s == Signal::Timer(Timer::Housekeeping)
            &&& rs.contains(Reaction::StepTest) <==> free && s == Signal::Timer(Timer::Test)
            &&& rs.contains(Reaction::CheckWallpaper) <==> free && (s == Signal::Timer(
                Timer::Wallpaper,
            ) || s == Signal::Timer(Timer::WallpaperPoll))
            &&& rs.contains(Reaction::RelayOut) <==> free && (s is DisplayChanged || s == Signal::Timer(
                Timer::WorkArea,
            ))
            &&& rs.contains(Reaction::ReadSystemSettings) <==> free && s is SystemSettings
            &&& rs.contains(Reaction::DrawFrame) <==> free && s is Frame
            &&& rs.contains(Reaction::ReleaseNotice) <==> s is ShellChanged
            &&& rs.contains(Reaction::NotifyWallpaper) <==> s is WallpaperSet || s is WallpaperSignal
                || (s == Signal::Timer(Timer::DesktopId) && desktop is Some && desktop != c.desktop)
        }),
{
    let rs = reacts(c, s, now, free, desktop).1;
    assert(rs.len() <= 3);
    assert(rs.len() > 0 ==> rs.contains(rs[0]));
    assert(rs.len() > 1 ==> rs.contains(rs[1]));
    assert(rs.len() > 2 ==> rs.contains(rs[2]));
}

/// A peek's window that took the focus is given it once, now or when there is time.
pub proof fn a_focused_peek_is_handled_once(c: Control, w: usize, x: usize, now: u64, free: bool)
    ensures
        reacts(c, Signal::PeekFocused(w), now, free, None).0.peek_pending == if free {
            None::<usize>
        } else {
            Some(w)
        },
        reacts(c, Signal::PeekFocused(w), now, true, None).1.contains(Reaction::FocusPeek(x)) <==> x
            == w,
        reacts(c, Signal::Timer(Timer::PeekFocusRetry), now, true, None).0.peek_pending is None,
        reacts(c, Signal::Timer(Timer::PeekFocusRetry), now, true, None).1.contains(
            Reaction::FocusPeek(x),
        ) <==> c.peek_pending == Some(x),
{
    let rs = reacts(c, Signal::PeekFocused(w), now, true, None).1;
    assert(rs[0] == Reaction::FocusPeek(w));
    assert(rs.contains(rs[0]));
    let qs = reacts(c, Signal::Timer(Timer::PeekFocusRetry), now, true, None).1;
    assert(qs.len() > 1 ==> qs.contains(qs[1]));
}

/// Changes in folders are gathered for sixty milliseconds, and for four hundred where the last
/// ones were read less than that ago.
pub proof fn changes_are_gathered(c: Control, now: u64)
    requires
        !c.folders_armed,
    ensures
        c.folders_done is None ==> folder_change(c, now).1 == seq![
            Reaction::SetTimer(Timer::Folders, 60),
        ],
        c.folders_done is Some && now - c.folders_done->0 >= 400 ==> folder_change(c, now).1 == seq![
            Reaction::SetTimer(Timer::Folders, 60),
        ],
        c.folders_done is Some && now - c.folders_done->0 < 400 ==> folder_change(c, now).1 == seq![
            Reaction::SetTimer(Timer::Folders, 400),
        ],
{
}

/// The end of the session is agreed to; settings of the system are left to it, as is what is none
/// of the application's business.
pub proof fn settings_are_left_to_the_system(s: Signal)
    ensures
        s is EndSession <==> answer_to(s) == Answer::Handled(1),
        answer_to(s) is Unhandled <==> s is WallpaperSet || s is WorkAreaSet || s is SystemSettings
            || s is Other,
        answer_to(s) matches Answer::Handled(n) ==> n == 0 || n == 1,
{
}

/// What is put off is tried again after its own delay, and what is gathered waits for its own.
pub proof fn every_delay_is_its_own(c: Control, now: u64)
    ensures
        reacts(c, Signal::Commands, now, false, None).1 == seq![
            Reaction::SetTimer(Timer::CommandRetry, 50),
        ],
        reacts(c, Signal::Frame, now, false, None).1 == seq![Reaction::SetTimer(Timer::FrameRetry, 16)],
        reacts(c, Signal::IconReady, now, true, None).1 == seq![Reaction::SetTimer(Timer::Icons, 40)],
        reacts(c, Signal::WorkAreaSet, now, true, None).1 == seq![
            Reaction::SetTimer(Timer::WorkArea, 250),
        ],
        reacts(c, Signal::Timer(Timer::Save), now, false, None).1 == seq![
            Reaction::SetTimer(Timer::Save, 500),
        ],
        reacts(c, Signal::Timer(Timer::Folders), now, false, None).1 == seq![
            Reaction::SetTimer(Timer::Folders, 400),
        ],
        reacts(c, Signal::Timer(Timer::Icons), now, false, None).1 == seq![
            Reaction::SetTimer(Timer::Icons, 100),
        ],
{
}

/// Once the folders are read changes are gathered anew, and a new desktop is remembered.
pub proof fn changes_are_gathered_anew(c: Control, now: u64, desktop: u128)
    ensures
        !reacts(c, Signal::Timer(Timer::Folders), now, true, None).0.folders_armed,
        reacts(c, Signal::FoldersChanged, now, true, None).0.folders_armed,
        reacts(c, Signal::Timer(Timer::DesktopId), now, true, Some(desktop)).0.desktop == Some(desktop),
        reacts(c, Signal::Timer(Timer::DesktopId), now, true, None).0 == c,
        reacts(
            Control { desktop: Some(desktop), ..c },
            Signal::Timer(Timer::DesktopId),
            now,
            true,
            Some(desktop),
        ).1.len() == 0,
{
}

} // verus!
