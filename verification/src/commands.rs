//! Commands: what windows ask the application to do, one after the other, outside of any window's
//! own work.

use crate::model::{ColumnWidths, FenceId, ItemId, SortMode};
use crate::placement::Rect;
use crate::tabs::TabDetach;
use vstd::prelude::*;

verus! {

/// The handle of a window of the system; 0 for none.
pub type WindowId = usize;

/// The number of rounds in which queued commands are worked off before other messages get a turn.
pub const COMMAND_ROUNDS: u32 = 8;

/// A command that took longer than this, in milliseconds, is worth a note.
pub const SLOW_COMMAND_MS: u64 = 8;

/// What a drop does with the files.
#[derive(Clone, Copy, Debug, PartialEq, Eq, Structural)]
pub enum TransferMode {
    Move,
    Copy,
    /// Make shortcuts to the files; they stay where they are.
    Link,
}

#[allow(inconsistent_fields)]
#[derive(Debug, PartialEq, Eq)]
pub enum Command {
    /// A fence window finished a move or a resize.
    FenceBoundsChanged { fence: FenceId, rect: Rect },
    ToggleRollUp(FenceId),
    /// A fence that was only peeked into stays expanded.
    CommitExpanded(FenceId),
    LaunchItem(ItemId),
    MoveItems { items: Vec<ItemId>, to: FenceId },
    /// Items were dropped in their own fence, in front of what it shows at `index`.
    ReorderItems { fence: FenceId, items: Vec<ItemId>, index: usize },
    /// Files were dropped onto a folder that `fence` shows.
    DropIntoFolder { paths: Vec<String>, folder: String, fence: FenceId, mode: TransferMode },
    /// A drag out of a fence ended, and another program took the files.
    DragOutFinished,
    PortalEnter { fence: FenceId, path: String },
    PortalUp(FenceId),
    /// A fence is dragged over the title of another window; 0 for none.
    MergeHint { target: WindowId, x: i32 },
    /// A fence was dropped on the title of another window.
    MergeFence { fence: FenceId, into: WindowId, x: i32 },
    SetColumnWidths { fence: FenceId, widths: ColumnWidths },
    SwitchTab { host: FenceId, tab: FenceId },
    DetachTab { tab: FenceId, x: i32, y: i32, from_drag: bool },
    CancelDetach { change: TabDetach },
    ReorderTab { host: FenceId, tab: FenceId, to: usize },
    /// Items were dropped on the bare desktop.
    MoveItemsToInbox { items: Vec<ItemId> },
    /// Files from elsewhere were dropped onto a fence.
    ExternalDrop { paths: Vec<String>, to: FenceId, mode: TransferMode },
    ExternalUrlDrop { url: String, name: Option<String>, to: FenceId },
    HeaderMenu { fence: FenceId, x: i32, y: i32 },
    ClipboardVerb { fence: FenceId, items: Vec<ItemId>, cut: bool },
    Paste { fence: FenceId },
    NewFolder { fence: FenceId },
    StepIconSize { fence: FenceId, larger: bool },
    ItemProperties { fence: FenceId, items: Vec<ItemId> },
    RefreshFence(FenceId),
    FenceMenu { fence: FenceId, x: i32, y: i32 },
    ItemMenu { fence: FenceId, items: Vec<ItemId>, x: i32, y: i32 },
    RenameFence { fence: FenceId, title: String },
    RenameItem { fence: FenceId, item: ItemId },
    RenameItemCommit { item: ItemId, name: String },
    EndItemRename { commit: bool },
    DeleteItems { fence: FenceId, items: Vec<ItemId>, permanent: bool },
    DeviceLost,
    DeleteFence(FenceId),
    NewFence { x: i32, y: i32 },
    NewFenceRect(Rect),
    ToggleAllFences,
    TogglePeek,
    EndPeek,
    ApplyRulesNow,
    OpenSettings,
    OpenOptionsForFence(FenceId),
    RedrawAll,
    Quit,
    WindowGone(WindowId),
    /// A window that was closed has faded out.
    FadeOutDone(WindowId),
    RaiseFence(WindowId),
    SortColumn { fence: FenceId, sort: SortMode },
    SettingsMessage(String),
}

/// The name of a command's kind.
pub open spec fn name_of(cmd: Command) -> Seq<char> {
    match cmd {
        Command::FenceBoundsChanged { .. } => "FenceBoundsChanged"@,
        Command::ToggleRollUp(_) => "ToggleRollUp"@,
        Command::CommitExpanded(_) => "CommitExpanded"@,
        Command::LaunchItem(_) => "LaunchItem"@,
        Command::MoveItems { .. } => "MoveItems"@,
        Command::ReorderItems { .. } => "ReorderItems"@,
        Command::DropIntoFolder { .. } => "DropIntoFolder"@,
        Command::DragOutFinished => "DragOutFinished"@,
        Command::PortalEnter { .. } => "PortalEnter"@,
        Command::PortalUp(_) => "PortalUp"@,
        Command::MergeHint { .. } => "MergeHint"@,
        Command::MergeFence { .. } => "MergeFence"@,
        Command::SetColumnWidths { .. } => "SetColumnWidths"@,
        Command::SwitchTab { .. } => "SwitchTab"@,
        Command::DetachTab { .. } => "DetachTab"@,
        Command::CancelDetach { .. } => "CancelDetach"@,
        Command::ReorderTab { .. } => "ReorderTab"@,
        Command::MoveItemsToInbox { .. } => "MoveItemsToInbox"@,
        Command::ExternalDrop { .. } => "ExternalDrop"@,
        Command::ExternalUrlDrop { .. } => "ExternalUrlDrop"@,
        Command::HeaderMenu { .. } => "HeaderMenu"@,
        Command::ClipboardVerb { .. } => "ClipboardVerb"@,
        Command::Paste { .. } => "Paste"@,
        Command::NewFolder { .. } => "NewFolder"@,
        Command::StepIconSize { .. } => "StepIconSize"@,
        Command::ItemProperties { .. } => "ItemProperties"@,
        Command::RefreshFence(_) => "RefreshFence"@,
        Command::FenceMenu { .. } => "FenceMenu"@,
        Command::ItemMenu { .. } => "ItemMenu"@,
        Command::RenameFence { .. } => "RenameFence"@,
        Command::RenameItem { .. } => "RenameItem"@,
        Command::RenameItemCommit { .. } => "RenameItemCommit"@,
        Command::EndItemRename { .. } => "EndItemRename"@,
        Command::DeleteItems { .. } => "DeleteItems"@,
        Command::DeviceLost => "DeviceLost"@,
        Command::DeleteFence(_) => "DeleteFence"@,
        Command::NewFence { .. } => "NewFence"@,
        Command::NewFenceRect(_) => "NewFenceRect"@,
        Command::ToggleAllFences => "ToggleAllFences"@,
        Command::TogglePeek => "TogglePeek"@,
        Command::EndPeek => "EndPeek"@,
        Command::ApplyRulesNow => "ApplyRulesNow"@,
        Command::OpenSettings => "OpenSettings"@,
        Command::OpenOptionsForFence(_) => "OpenOptionsForFence"@,
        Command::RedrawAll => "RedrawAll"@,
        Command::Quit => "Quit"@,
        Command::WindowGone(_) => "WindowGone"@,
        Command::FadeOutDone(_) => "FadeOutDone"@,
        Command::RaiseFence(_) => "RaiseFence"@,
        Command::SortColumn { .. } => "SortColumn"@,
        Command::SettingsMessage(_) => "SettingsMessage"@,
    }
}

/// The name of a command's kind.
pub fn command_name(cmd: &Command) -> (r: &'static str)
    ensures
        r@ == name_of(*cmd),
{
    match cmd {
        Command::FenceBoundsChanged { .. } => "FenceBoundsChanged",
        Command::ToggleRollUp(_) => "ToggleRollUp",
        Command::CommitExpanded(_) => "CommitExpanded",
        Command::LaunchItem(_) => "LaunchItem",
        Command::MoveItems { .. } => "MoveItems",
        Command::ReorderItems { .. } => "ReorderItems",
        Command::DropIntoFolder { .. } => "DropIntoFolder",
        Command::DragOutFinished => "DragOutFinished",
        Command::PortalEnter { .. } => "PortalEnter",
        Command::PortalUp(_) => "PortalUp",
        Command::MergeHint { .. } => "MergeHint",
        Command::MergeFence { .. } => "MergeFence",
        Command::SetColumnWidths { .. } => "SetColumnWidths",
        Command::SwitchTab { .. } => "SwitchTab",
        Command::DetachTab { .. } => "DetachTab",
        Command::CancelDetach { .. } => "CancelDetach",
        Command::ReorderTab { .. } => "ReorderTab",
        Command::MoveItemsToInbox { .. } => "MoveItemsToInbox",
        Command::ExternalDrop { .. } => "ExternalDrop",
        Command::ExternalUrlDrop { .. } => "ExternalUrlDrop",
        Command::HeaderMenu { .. } => "HeaderMenu",
        Command::ClipboardVerb { .. } => "ClipboardVerb",
        Command::Paste { .. } => "Paste",
        Command::NewFolder { .. } => "NewFolder",
        Command::StepIconSize { .. } => "StepIconSize",
        Command::ItemProperties { .. } => "ItemProperties",
        Command::RefreshFence(_) => "RefreshFence",
        Command::FenceMenu { .. } => "FenceMenu",
        Command::ItemMenu { .. } => "ItemMenu",
        Command::RenameFence { .. } => "RenameFence",
        Command::RenameItem { .. } => "RenameItem",
        Command::RenameItemCommit { .. } => "RenameItemCommit",
        Command::EndItemRename { .. } => "EndItemRename",
        Command::DeleteItems { .. } => "DeleteItems",
        Command::DeviceLost => "DeviceLost",
        Command::DeleteFence(_) => "DeleteFence",
        Command::NewFence { .. } => "NewFence",
        Command::NewFenceRect(_) => "NewFenceRect",
        Command::ToggleAllFences => "ToggleAllFences",
        Command::TogglePeek => "TogglePeek",
        Command::EndPeek => "EndPeek",
        Command::ApplyRulesNow => "ApplyRulesNow",
        Command::OpenSettings => "OpenSettings",
        Command::OpenOptionsForFence(_) => "OpenOptionsForFence",
        Command::RedrawAll => "RedrawAll",
        Command::Quit => "Quit",
        Command::WindowGone(_) => "WindowGone",
        Command::FadeOutDone(_) => "FadeOutDone",
        Command::RaiseFence(_) => "RaiseFence",
        Command::SortColumn { .. } => "SortColumn",
        Command::SettingsMessage(_) => "SettingsMessage",
    }
}

/// Commands that wait, oldest first, and the window to poke when one is added.
pub struct CommandQueue {
    queue: Vec<Command>,
    control: Option<WindowId>,
}

impl CommandQueue {
    /// The commands that wait, oldest first.
    pub closed spec fn waiting(&self) -> Seq<Command> {
        self.queue@
    }

    /// The window to poke.
    pub closed spec fn poked(&self) -> Option<WindowId> {
        self.control
    }

    pub fn new() -> (r: Self)
        ensures
            r.waiting() == Seq::<Command>::empty(),
            r.poked() is None,
    {
        CommandQueue { queue: Vec::new(), control: None }
    }

    /// Pokes this window from now on.
    pub fn attach(&mut self, control: WindowId)
        ensures
            final(self).poked() == Some(control),
            final(self).waiting() == old(self).waiting(),
    {
        self.control = Some(control);
    }

    /// Adds a command. Returns the window to poke.
    pub fn push(&mut self, cmd: Command) -> (r: Option<WindowId>)
        ensures
            final(self).waiting() == old(self).waiting().push(cmd),
            final(self).poked() == old(self).poked(),
            r == old(self).poked(),
    {
        self.queue.push(cmd);
        self.control
    }

    /// Takes every command that waits.
    pub fn drain(&mut self) -> (r: Vec<Command>)
        ensures
            r@ == old(self).waiting(),
            final(self).waiting() == Seq::<Command>::empty(),
            final(self).poked() == old(self).poked(),
    {
        let mut out: Vec<Command> = Vec::new();
        std::mem::swap(&mut out, &mut self.queue);
        out
    }
}

/// Whether another round of queued commands is worked off: there are some, and fewer than the
/// limit of rounds were.
pub fn another_round(done: u32, queued: usize) -> (r: bool)
    ensures
        r == (queued > 0 && done < COMMAND_ROUNDS),
{
    queued > 0 && done < COMMAND_ROUNDS
}

/// Commands come out in the order they went in, all of them at once; the window that handles them
/// is woken for each.
pub proof fn commands_come_out_in_order(
    q: &mut CommandQueue,
    cmd: Command,
    woken: Option<WindowId>,
    out: Vec<Command>,
)
    ensures
        call_ensures(CommandQueue::push, (q, cmd), woken) ==> final(q).waiting().last() == cmd
            && final(q).waiting().drop_last() == old(q).waiting() && woken == old(q).poked(),
        call_ensures(CommandQueue::drain, (q,), out) ==> out@ == old(q).waiting()
            && final(q).waiting().len() == 0 && final(q).poked() == old(q).poked(),
{
    if call_ensures(CommandQueue::push, (q, cmd), woken) {
        assert(final(q).waiting().drop_last() =~= old(q).waiting());
    }
}

/// Commands that commands queue are handled in up to eight rounds.
pub proof fn rounds_of_commands_end(done: u32, queued: usize, r: bool)
    requires
        call_ensures(another_round, (done, queued), r),
    ensures
        r <==> queued > 0 && done < 8,
{
}

} // verus!
