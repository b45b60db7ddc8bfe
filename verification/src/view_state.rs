//! What a fence window knows of itself: how it is folded, how it shows its items, and what has to
//! be drawn anew when that changes.

use crate::commands::{Command, WindowId};
use crate::dip::Dip;
use crate::model::{ColumnFlags, ColumnWidths, FenceId, ItemId, SortMode, Spacing, ViewLayout};
use crate::placement::{fits, height_of, larger, Rect};
use crate::plugin_api::InstanceKey;
use crate::settings::Backdrop;
use crate::tabs::{contains_id, TabDetach};
use vstd::prelude::*;

verus! {

// ---- folding ------------------------------------------------------------------------------

/// How far a window is unrolled.
#[derive(Clone, Copy, Debug, PartialEq, Eq, Structural)]
pub struct Fold {
    pub rolled_up: bool,
    /// It is just being rolled up or down.
    pub rolling: bool,
    /// Its height is just following its contents.
    pub settling: bool,
    /// Unrolled for as long as the pointer stays.
    pub peeking: bool,
    /// The height of the window when it is unrolled, in pixels.
    pub expanded_h: i32,
}

/// The height with which a window is made: a rolled-up one is its title row.
pub open spec fn first_height_of(rolled_up: bool, title_h: int, bounds: Rect) -> int {
    larger(
        if rolled_up {
            title_h
        } else {
            height_of(bounds)
        },
        1,
    )
}

/// The height with which a window is made: a rolled-up one is its title row.
pub fn first_height(rolled_up: bool, title_h: i32, bounds: &Rect) -> (r: i32)
    requires
        fits(height_of(*bounds)),
    ensures
        r == first_height_of(rolled_up, title_h as int, *bounds),
{
    let h: i32 = if rolled_up {
        title_h
    } else {
        bounds.bottom - bounds.top
    };
    if h >= 1 {
        h
    } else {
        1
    }
}

impl Fold {
    /// The fold of a window that was just made.
    pub fn new(rolled_up: bool, expanded_h: i32) -> (r: Self)
        ensures
            r == (Fold {
                rolled_up,
                rolling: false,
                settling: false,
                peeking: false,
                expanded_h: larger(expanded_h as int, 1) as i32,
            }),
    {
        let h: i32 = if expanded_h >= 1 {
            expanded_h
        } else {
            1
        };
        Fold { rolled_up, rolling: false, settling: false, peeking: false, expanded_h: h }
    }

    /// Rolled up, though perhaps peeked into.
    pub fn is_rolled(&self) -> (r: bool)
        ensures
            r == (self.rolled_up || self.peeking),
    {
        self.rolled_up || self.peeking
    }

    /// The contents are drawn.
    pub fn shows_content(&self) -> (r: bool)
        ensures
            r == (!self.rolled_up || self.rolling),
    {
        !self.rolled_up || self.rolling
    }

    /// A peek becomes lasting.
    pub fn commit_expanded(&mut self)
        ensures
            *final(self) == (Fold { peeking: false, rolled_up: false, ..*old(self) }),
    {
        self.peeking = false;
        self.rolled_up = false;
    }

    /// Rolls up or down. Returns whether the roll begins: not where the window is so already. A
    /// window that would unroll to its title row alone gets room for its contents, of `spare`
    /// pixels.
    pub fn set_rolled(&mut self, rolled: bool, title_h: i32, spare: i32) -> (r: bool)
        requires
            fits(title_h + spare),
        ensures
            r == (old(self).rolled_up != rolled || old(self).rolling),
            *final(self) == (Fold {
                peeking: false,
                expanded_h: if r && !rolled && old(self).expanded_h <= title_h {
                    (title_h + spare) as i32
                } else {
                    old(self).expanded_h
                },
                ..*old(self)
            }),
    {
        self.peeking = false;
        if self.rolled_up == rolled && !self.rolling {
            return false;
        }
        if !rolled && self.expanded_h <= title_h {
            self.expanded_h = title_h + spare;
        }
        true
    }

    /// The window is put into a place of its own, whatever was moving. Returns its rectangle.
    pub fn restore(&mut self, rect: &Rect, rolled: bool, expanded_h: i32, title_h: i32) -> (r: Rect)
        requires
            fits(
                rect.top + if rolled {
                    title_h
                } else {
                    expanded_h
                },
            ),
        ensures
            *final(self) == (Fold {
                rolled_up: rolled,
                rolling: false,
                settling: false,
                peeking: false,
                expanded_h,
            }),
            r == (Rect {
                bottom: (rect.top + if rolled {
                    title_h
                } else {
                    expanded_h
                }) as i32,
                ..*rect
            }),
    {
        *self = Fold { rolled_up: rolled, rolling: false, settling: false, peeking: false, expanded_h };
        let h: i32 = if rolled {
            title_h
        } else {
            expanded_h
        };
        Rect { bottom: rect.top + h, ..*rect }
    }

    /// The window gets another height. Returns its rectangle.
    pub fn apply_height(&mut self, rect: &Rect, height: i32) -> (r: Rect)
        requires
            fits(rect.top + height),
        ensures
            *final(self) == (Fold { expanded_h: height, ..*old(self) }),
            r == (Rect { bottom: (rect.top + height) as i32, ..*rect }),
    {
        self.expanded_h = height;
        Rect { bottom: rect.top + height, ..*rect }
    }

    /// The window is going to close: nothing moves it any more.
    pub fn retire(&mut self)
        ensures
            *final(self) == (Fold { rolling: false, settling: false, ..*old(self) }),
    {
        self.rolling = false;
        self.settling = false;
    }

    /// The window is on a screen of another density. `rescaled` is the height of its contents
    /// there. Returns the density, and whether it is another one.
    pub fn adopt_dpi(&mut self, dpi: u32, new: u32, rescaled: i32) -> (r: (u32, bool))
        ensures
            r.0 == larger(new as int, 96),
            r.1 == (r.0 != dpi),
            *final(self) == if r.1 {
                Fold { expanded_h: rescaled, ..*old(self) }
            } else {
                *old(self)
            },
    {
        let next: u32 = if new >= 96 {
            new
        } else {
            96
        };
        if next == dpi {
            return (next, false);
        }
        self.expanded_h = rescaled;
        (next, true)
    }
}

/// What was restored is what a window was stored with: its height is the expanded one, or its
/// title row where it is rolled up.
pub proof fn restored_windows_have_their_height(rect: Rect, rolled: bool, expanded_h: int, title_h: int)
    requires
        fits(
            rect.top + if rolled {
                title_h
            } else {
                expanded_h
            },
        ),
    ensures
        ({
            let h = if rolled {
                title_h
            } else {
                expanded_h
            };
            height_of(Rect { bottom: (rect.top + h) as i32, ..rect }) == h
        }),
{
}

// ---- the look of the list -----------------------------------------------------------------

/// What is drawn anew.
#[derive(Clone, Copy, Debug, PartialEq, Eq, Structural)]
pub enum Redraw {
    Nothing,
    /// The title row and the frame.
    Chrome,
    Content,
    All,
}

/// How a window shows its items.
#[derive(Clone, Copy, Debug, PartialEq, Eq, Structural)]
pub struct Display {
    pub layout: ViewLayout,
    pub sort: SortMode,
    pub reverse: bool,
    pub group_by_date: bool,
    pub is_inbox: bool,
    pub is_portal: bool,
    pub folder_icon: bool,
    pub up_button: bool,
    /// A double click on a folder opens it here.
    pub navigate: bool,
    pub columns: ColumnFlags,
    pub widths: ColumnWidths,
    pub spacing: Spacing,
    /// None for the material of the settings.
    pub backdrop: Option<Backdrop>,
    pub opacity: Dip,
}

/// What the decorations of the title row change.
#[derive(Clone, Copy, Debug, PartialEq, Eq, Structural)]
pub struct DecoChange {
    pub chrome: bool,
    pub content: bool,
}

/// The widths are equal numbers.
pub open spec fn equal_widths(a: ColumnWidths, b: ColumnWidths) -> bool {
    a.date.equals(b.date) && a.kind.equals(b.kind) && a.size.equals(b.size)
}

impl Display {
    /// How a window that was just made shows its items.
    pub fn new(is_inbox: bool, widths: ColumnWidths, opacity: Dip) -> (r: Self)
        ensures
            r == (Display {
                layout: ViewLayout::Icons,
                sort: SortMode::Manual,
                reverse: false,
                group_by_date: false,
                is_inbox,
                is_portal: false,
                folder_icon: false,
                up_button: false,
                navigate: false,
                columns: ColumnFlags { date: true, kind: true, size: true },
                widths,
                spacing: Spacing::Normal,
                backdrop: None,
                opacity,
            }),
    {
        Display {
            layout: ViewLayout::Icons,
            sort: SortMode::Manual,
            reverse: false,
            group_by_date: false,
            is_inbox,
            is_portal: false,
            folder_icon: false,
            up_button: false,
            navigate: false,
            columns: ColumnFlags { date: true, kind: true, size: true },
            widths,
            spacing: Spacing::Normal,
            backdrop: None,
            opacity,
        }
    }

    /// Shows these columns of the details.
    pub fn set_columns_visible(&mut self, columns: ColumnFlags) -> (r: Redraw)
        ensures
            *final(self) == (Display { columns, ..*old(self) }),
            r == if old(self).columns != columns && old(self).layout == ViewLayout::Details {
                Redraw::All
            } else {
                Redraw::Nothing
            },
    {
        if self.columns == columns {
            return Redraw::Nothing;
        }
        self.columns = columns;
        if self.layout == ViewLayout::Details {
            Redraw::All
        } else {
            Redraw::Nothing
        }
    }

    /// Gives the columns of the details these widths, unless one of them is just being dragged.
    pub fn set_column_widths(&mut self, widths: ColumnWidths, dragging: bool) -> (r: Redraw)
        ensures
            ({
                let changes = !equal_widths(old(self).widths, widths) && !dragging;
                &&& *final(self) == if changes {
                    Display { widths, ..*old(self) }
                } else {
                    *old(self)
                }
                &&& r == if changes && old(self).layout == ViewLayout::Details {
                    Redraw::Content
                } else {
                    Redraw::Nothing
                }
            }),
    {
        let same: bool = self.widths.date.same(widths.date) && self.widths.kind.same(widths.kind)
            && self.widths.size.same(widths.size);
        if same || dragging {
            return Redraw::Nothing;
        }
        self.widths = widths;
        if self.layout == ViewLayout::Details {
            Redraw::Content
        } else {
            Redraw::Nothing
        }
    }

    /// Shows the order of the items in the header of the details.
    pub fn set_sort_indicator(&mut self, sort: SortMode, reverse: bool) -> (r: Redraw)
        ensures
            *final(self) == (Display { sort, reverse, ..*old(self) }),
            r == if (old(self).sort != sort || old(self).reverse != reverse) && old(self).layout
                == ViewLayout::Details {
                Redraw::Content
            } else {
                Redraw::Nothing
            },
    {
        if self.sort == sort && self.reverse == reverse {
            return Redraw::Nothing;
        }
        self.sort = sort;
        self.reverse = reverse;
        if self.layout == ViewLayout::Details {
            Redraw::Content
        } else {
            Redraw::Nothing
        }
    }

    /// Puts the items under one header per date section, or not.
    pub fn set_group_by_date(&mut self, on: bool) -> (r: Redraw)
        ensures
            *final(self) == (Display { group_by_date: on, ..*old(self) }),
            r == if old(self).group_by_date != on {
                Redraw::Content
            } else {
                Redraw::Nothing
            },
    {
        if self.group_by_date == on {
            return Redraw::Nothing;
        }
        self.group_by_date = on;
        Redraw::Content
    }

    /// The fence shown is the Inbox, or not: an empty one says something else.
    pub fn set_is_inbox(&mut self, on: bool, empty: bool) -> (r: Redraw)
        ensures
            *final(self) == (Display { is_inbox: on, ..*old(self) }),
            r == if old(self).is_inbox != on && empty {
                Redraw::All
            } else {
                Redraw::Nothing
            },
    {
        if self.is_inbox == on {
            return Redraw::Nothing;
        }
        self.is_inbox = on;
        if empty {
            Redraw::All
        } else {
            Redraw::Nothing
        }
    }

    /// Shows the items as icons or as rows.
    pub fn set_layout(&mut self, layout: ViewLayout) -> (r: Redraw)
        ensures
            *final(self) == (Display { layout, ..*old(self) }),
            r == if old(self).layout != layout {
                Redraw::All
            } else {
                Redraw::Nothing
            },
    {
        if self.layout == layout {
            return Redraw::Nothing;
        }
        self.layout = layout;
        Redraw::All
    }

    /// Puts the icons closer together or farther apart.
    pub fn set_spacing(&mut self, spacing: Spacing) -> (r: Redraw)
        ensures
            *final(self) == (Display { spacing, ..*old(self) }),
            r == if old(self).spacing != spacing {
                Redraw::All
            } else {
                Redraw::Nothing
            },
    {
        if self.spacing == spacing {
            return Redraw::Nothing;
        }
        self.spacing = spacing;
        Redraw::All
    }

    /// Gives the window a material and an opacity of its own. `fainter` says that the opacities
    /// are not the same number.
    pub fn set_appearance(&mut self, backdrop: Option<Backdrop>, opacity: Dip, fainter: bool) -> (r: Redraw)
        ensures
            *final(self) == if old(self).backdrop != backdrop || fainter {
                Display { backdrop, opacity, ..*old(self) }
            } else {
                *old(self)
            },
            r == if old(self).backdrop != backdrop || fainter {
                Redraw::All
            } else {
                Redraw::Nothing
            },
    {
        if self.backdrop == backdrop && !fainter {
            return Redraw::Nothing;
        }
        self.backdrop = backdrop;
        self.opacity = opacity;
        Redraw::All
    }

    /// The material of the window: its own, else that of the settings.
    pub fn material(&self, global: Backdrop) -> (r: Backdrop)
        ensures
            r == match self.backdrop {
                Some(b) => b,
                None => global,
            },
    {
        match self.backdrop {
            Some(b) => b,
            None => global,
        }
    }

    /// Sets the decorations of the title row. An empty window says something else for a folder.
    pub fn set_portal_deco(
        &mut self,
        is_portal: bool,
        folder_icon: bool,
        up_button: bool,
        navigate: bool,
        empty: bool,
        rolled_up: bool,
    ) -> (r: DecoChange)
        ensures
            *final(self) == (Display { is_portal, folder_icon, up_button, navigate, ..*old(self) }),
            r.chrome == (old(self).folder_icon != folder_icon || old(self).up_button != up_button
                || old(self).navigate != navigate),
            r.content == (old(self).is_portal != is_portal && empty && !rolled_up),
    {
        let chrome: bool = self.folder_icon != folder_icon || self.up_button != up_button
            || self.navigate != navigate;
        let content: bool = self.is_portal != is_portal && empty && !rolled_up;
        self.is_portal = is_portal;
        self.folder_icon = folder_icon;
        self.up_button = up_button;
        self.navigate = navigate;
        DecoChange { chrome, content }
    }
}

// ---- contents -----------------------------------------------------------------------------

/// The panel that a window shows in place of items.
#[derive(Clone, Copy, Debug, PartialEq, Eq, Structural)]
pub struct Contents {
    pub panel: Option<InstanceKey>,
    pub auto_height: bool,
}

impl Contents {
    /// Shows a panel, or items where there is none. Returns whether another panel comes in; then
    /// the window takes it over. A panel has no items, and its height does not follow them.
    pub fn set(&mut self, panel: Option<InstanceKey>) -> (r: bool)
        ensures
            r == (old(self).panel != panel),
            final(self).panel == panel,
            final(self).auto_height == (old(self).auto_height && panel is None),
    {
        let r: bool = match (self.panel, panel) {
            (Some(a), Some(b)) => a != b,
            (None, None) => false,
            _ => true,
        };
        self.panel = panel;
        if panel.is_some() {
            self.auto_height = false;
        }
        r
    }

    /// Whether the window takes items.
    pub fn takes_items(&self) -> (r: bool)
        ensures
            r == self.panel is None,
    {
        self.panel.is_none()
    }
}

// ---- renaming -----------------------------------------------------------------------------

/// What is being renamed.
#[derive(Clone, Copy, Debug, PartialEq, Eq, Structural)]
pub struct Renaming {
    pub item: Option<ItemId>,
    pub title: bool,
}

/// What a change of what is renamed asks for.
#[derive(Clone, Copy, Debug, PartialEq, Eq, Structural)]
pub struct RenameChange {
    /// The item that is selected alone.
    pub select: Option<usize>,
    /// The contents are drawn anew.
    pub redraw: bool,
    /// A peek begins to close again.
    pub resume_close: bool,
}

/// The first place of an id in a list.
pub open spec fn place_of(ids: Seq<ItemId>, id: ItemId) -> Option<int>
    decreases ids.len(),
{
    if ids.len() == 0 {
        None
    } else {
        match place_of(ids.drop_last(), id) {
            Some(i) => Some(i),
            None => if ids.last() == id {
                Some(ids.len() - 1)
            } else {
                None
            },
        }
    }
}

proof fn lemma_place(ids: Seq<ItemId>, id: ItemId, i: int)
    requires
        0 <= i < ids.len(),
        ids[i] == id,
        forall|j: int| 0 <= j < i ==> ids[j] != id,
    ensures
        place_of(ids, id) == Some(i),
    decreases ids.len(),
{
    if i < ids.len() - 1 {
        lemma_place(ids.drop_last(), id, i);
    } else {
        lemma_no_place(ids.drop_last(), id);
    }
}

proof fn lemma_no_place(ids: Seq<ItemId>, id: ItemId)
    requires
        forall|j: int| 0 <= j < ids.len() ==> ids[j] != id,
    ensures
        place_of(ids, id) is None,
    decreases ids.len(),
{
    if ids.len() > 0 {
        lemma_no_place(ids.drop_last(), id);
    }
}

fn find_item(ids: &Vec<ItemId>, id: ItemId) -> (r: Option<usize>)
    ensures
        match r {
            Some(i) => place_of(ids@, id) == Some(i as int) && i < ids.len() && ids@[i as int] == id,
            None => place_of(ids@, id) is None,
        },
{
    let n: usize = ids.len();
    for i in 0..n
        invariant
            n == ids.len(),
            forall|j: int| 0 <= j < i ==> ids@[j] != id,
    {
        if ids[i] == id {
            proof {
                lemma_place(ids@, id, i as int);
            }
            return Some(i);
        }
    }
    proof {
        lemma_no_place(ids@, id);
    }
    None
}

impl Renaming {
    /// An item begins or ends to be renamed.
    pub fn set_item(&mut self, item: Option<ItemId>, ids: &Vec<ItemId>, rolled_up: bool) -> (r: RenameChange)
        ensures
            *final(self) == (Renaming { item, ..*old(self) }),
            ({
                let changed = old(self).item != item;
                &&& match r.select {
                    Some(i) => changed && item is Some && place_of(ids@, item->0) == Some(i as int),
                    None => !changed || item is None || place_of(ids@, item->0) is None,
                }
                &&& r.redraw == (changed && !rolled_up)
                &&& r.resume_close == (changed && item is None)
            }),
    {
        let changed: bool = match (self.item, item) {
            (Some(a), Some(b)) => a != b,
            (None, None) => false,
            _ => true,
        };
        if !changed {
            return RenameChange { select: None, redraw: false, resume_close: false };
        }
        self.item = item;
        let select: Option<usize> = match item {
            Some(id) => find_item(ids, id),
            None => None,
        };
        RenameChange { select, redraw: !rolled_up, resume_close: item.is_none() }
    }

    /// The title begins or ends to be renamed. Returns whether a peek begins to close again.
    pub fn set_title(&mut self, on: bool) -> (r: bool)
        ensures
            *final(self) == (Renaming { title: on, ..*old(self) }),
            r == (old(self).title && !on),
    {
        let r: bool = self.title && !on;
        self.title = on;
        r
    }

    /// An item goes by another id: it keeps its place, and what is renamed follows it.
    pub fn rekey(&mut self, ids: &mut Vec<ItemId>, old_id: ItemId, new_id: ItemId) -> (r: bool)
        ensures
            r == (old_id != new_id && place_of(old(ids)@, old_id) is Some),
            final(ids)@ == if r {
                old(ids)@.update(place_of(old(ids)@, old_id)->0, new_id)
            } else {
                old(ids)@
            },
            *final(self) == if r && old(self).item == Some(old_id) {
                Renaming { item: Some(new_id), ..*old(self) }
            } else {
                *old(self)
            },
    {
        if old_id == new_id {
            return false;
        }
        match find_item(ids, old_id) {
            Some(i) => {
                ids.set(i, new_id);
                if let Some(a) = self.item {
                    if a == old_id {
                        self.item = Some(new_id);
                    }
                }
                true
            },
            None => false,
        }
    }
}

/// What is renamed in the popup, of all windows.
#[derive(Clone, Copy, Debug, PartialEq, Eq, Structural)]
pub enum RenameTarget {
    Nothing,
    Item(ItemId),
    /// The title in this window; 0 where the fence has none.
    Title(WindowId),
}

/// Whether a window ends its rename of an item, and that of its title: all do but the one that
/// something is still renamed in.
pub fn renames_ended(target: RenameTarget, window: WindowId, item: Option<ItemId>) -> (r: (bool, bool))
    ensures
        r.0 == match target {
            RenameTarget::Item(id) => item != Some(id),
            _ => true,
        },
        r.1 == (target != RenameTarget::Title(window)),
{
    let ends_item: bool = match target {
        RenameTarget::Item(id) => match item {
            Some(i) => i != id,
            None => true,
        },
        _ => true,
    };
    let ends_title: bool = match target {
        RenameTarget::Title(w) => w != window,
        _ => true,
    };
    (ends_item, ends_title)
}

// ---- windows that follow the pointer ------------------------------------------------------

/// Where a drag of a window began.
#[derive(Debug, PartialEq, Eq)]
pub enum DragOrigin {
    /// At its title.
    Caption { rect: Rect, click_expand: bool },
    /// As a tab that was torn off.
    Tab(TabDetach),
}

/// A window that the pointer moves.
#[derive(Debug, PartialEq, Eq)]
pub struct RemoteDrag {
    pub window: WindowId,
    pub fence: FenceId,
    /// Where in the window the pointer holds it.
    pub offset: (i32, i32),
    pub merge_target: WindowId,
    pub merge_x: i32,
    pub moved_once: bool,
    pub origin: DragOrigin,
    pub press: (i32, i32),
    pub last_pointer: (i32, i32),
    /// Where the pointer was seen and the window has not gone yet.
    pub pending_pointer: Option<(i32, i32)>,
    pub started: bool,
}

/// The drag of a window by its title. It begins once the pointer has moved.
pub fn caption_drag(
    window: WindowId,
    fence: FenceId,
    rect: Rect,
    offset: (i32, i32),
    press: (i32, i32),
    click_expand: bool,
) -> (r: RemoteDrag)
    ensures
        r == (RemoteDrag {
            window,
            fence,
            offset,
            merge_target: 0,
            merge_x: i32::MIN,
            moved_once: false,
            origin: DragOrigin::Caption { rect, click_expand },
            press,
            last_pointer: press,
            pending_pointer: None,
            started: false,
        }),
{
    RemoteDrag {
        window,
        fence,
        offset,
        merge_target: 0,
        merge_x: i32::MIN,
        moved_once: false,
        origin: DragOrigin::Caption { rect, click_expand },
        press,
        last_pointer: press,
        pending_pointer: None,
        started: false,
    }
}

/// A tab that is torn off.
#[derive(Clone, Copy, Debug, PartialEq, Eq, Structural)]
pub struct Detaching {
    /// The window of the tab is awaited.
    pub pending: bool,
    /// It was taken back before the window came.
    pub cancelled: bool,
}

impl Detaching {
    /// The window of the torn-off tab is there. Returns its drag: none where it is not awaited.
    pub fn begin(&mut self, window: WindowId, change: TabDetach, rect: &Rect, cursor: (i32, i32)) -> (r: Option<
        RemoteDrag,
    >)
        requires
            fits(cursor.0 - rect.left),
            fits(cursor.1 - rect.top),
        ensures
            *final(self) == (Detaching { pending: false, ..*old(self) }),
            r == if old(self).pending {
                Some(
                    RemoteDrag {
                        window,
                        fence: change.tab,
                        offset: ((cursor.0 - rect.left) as i32, (cursor.1 - rect.top) as i32),
                        merge_target: 0,
                        merge_x: i32::MIN,
                        moved_once: false,
                        origin: DragOrigin::Tab(change),
                        press: cursor,
                        last_pointer: cursor,
                        pending_pointer: Some(cursor),
                        started: true,
                    },
                )
            } else {
                None
            },
    {
        if !self.pending {
            return None;
        }
        self.pending = false;
        let fence: FenceId = change.tab;
        Some(
            RemoteDrag {
                window,
                fence,
                offset: (cursor.0 - rect.left, cursor.1 - rect.top),
                merge_target: 0,
                merge_x: i32::MIN,
                moved_once: false,
                origin: DragOrigin::Tab(change),
                press: cursor,
                last_pointer: cursor,
                pending_pointer: Some(cursor),
                started: true,
            },
        )
    }

    /// Takes the note that a torn-off tab was taken back.
    pub fn take_cancelled(&mut self) -> (r: bool)
        ensures
            r == old(self).cancelled,
            *final(self) == (Detaching { cancelled: false, ..*old(self) }),
    {
        let r: bool = self.cancelled;
        self.cancelled = false;
        r
    }
}

// ---- surfaces -----------------------------------------------------------------------------

/// Notes how drawing went. A surface that lost its device asks once for it to be rebuilt.
pub fn note_draw_result(lost: &mut bool, ok: bool) -> (r: Option<Command>)
    ensures
        r == if !ok && !*old(lost) {
            Some(Command::DeviceLost)
        } else {
            None
        },
        *final(lost) == (*old(lost) || !ok),
{
    if !ok && !*lost {
        *lost = true;
        Some(Command::DeviceLost)
    } else {
        None
    }
}

/// The items that are cut change: two lists without repetitions hold other items.
pub fn cut_changes(now: &Vec<ItemId>, next: &Vec<ItemId>) -> (r: bool)
    requires
        now@.no_duplicates(),
        next@.no_duplicates(),
    ensures
        r == (now@.to_set() != next@.to_set()),
{
    proof {
        now@.unique_seq_to_set();
        next@.unique_seq_to_set();
    }
    if now.len() != next.len() {
        return true;
    }
    let n: usize = now.len();
    for i in 0..n
        invariant
            n == now.len() == next.len(),
            forall|j: int| 0 <= j < i ==> #[trigger] next@.contains(now@[j]),
    {
        if !contains_id(next, now[i]) {
            assert(now@.to_set().contains(now@[i as int]));
            assert(!next@.to_set().contains(now@[i as int]));
            return true;
        }
    }
    proof {
        let (a, b) = (now@.to_set(), next@.to_set());
        assert forall|x: ItemId| a.contains(x) implies b.contains(x) by {
            let j = choose|j: int| 0 <= j < now.len() && now@[j] == x;
            assert(next@.contains(now@[j]));
        }
        vstd::set_lib::lemma_subset_equality(a, b);
    }
    false
}

/// An item is found at its first place, and nowhere where it is not listed.
pub proof fn an_item_is_found_at_its_first_place(ids: Seq<ItemId>, id: ItemId)
    ensures
        place_of(ids, id) is Some ==> 0 <= place_of(ids, id)->0 < ids.len() && ids[place_of(ids, id)->0] == id,
        place_of(ids, id) is Some ==> forall|j: int|
            0 <= j < place_of(ids, id)->0 ==> #[trigger] ids[j] != id,
        place_of(ids, id) is None ==> !ids.contains(id),
    decreases ids.len(),
{
    if ids.len() > 0 {
        let front = ids.drop_last();
        an_item_is_found_at_its_first_place(front, id);
        if place_of(front, id) is None {
            assert forall|j: int| 0 <= j < front.len() implies #[trigger] ids[j] != id by {
                assert(front.contains(front[j]));
            }
        } else {
            let i = place_of(front, id)->0;
            assert forall|j: int| 0 <= j < i implies #[trigger] ids[j] != id by {
                assert(front[j] != id);
            }
        }
    }
}

/// A window begins with the height of its title row where it is rolled up, with that of its bounds
/// where it is not, and with one pixel at least.
pub proof fn rolled_windows_begin_as_their_title(rolled_up: bool, title_h: int, bounds: Rect)
    ensures
        rolled_up && title_h >= 1 ==> first_height_of(rolled_up, title_h, bounds) == title_h,
        !rolled_up && bounds.bottom - bounds.top >= 1 ==> first_height_of(rolled_up, title_h, bounds)
            == bounds.bottom - bounds.top,
        first_height_of(rolled_up, title_h, bounds) >= 1,
{
}

/// A window that is rolled up or down is not peeked into any more, and one that is unrolled is
/// higher than its title row; its height is kept otherwise.
pub proof fn unrolled_windows_are_higher_than_their_title(
    f: &mut Fold,
    rolled: bool,
    title_h: i32,
    spare: i32,
    r: bool,
)
    requires
        call_ensures(Fold::set_rolled, (f, rolled, title_h, spare), r),
        fits(title_h + spare),
    ensures
        !final(f).peeking,
        r <==> old(f).rolled_up != rolled || old(f).rolling,
        r && !rolled && spare > 0 ==> final(f).expanded_h > title_h,
        rolled || old(f).expanded_h > title_h ==> final(f).expanded_h == old(f).expanded_h,
{
}

/// A peeked window that is kept open is neither rolled up nor peeked into, and one that shows its
/// contents is open or just changing.
pub proof fn a_kept_window_is_open(f: &mut Fold, g: &Fold, shows: bool, is_rolled: bool)
    ensures
        call_ensures(Fold::commit_expanded, (f,), ()) ==> !final(f).rolled_up && !final(f).peeking
            && final(f).expanded_h == old(f).expanded_h,
        call_ensures(Fold::shows_content, (g,), shows) ==> (shows <==> !g.rolled_up || g.rolling),
        call_ensures(Fold::is_rolled, (g,), is_rolled) ==> (is_rolled <==> g.rolled_up || g.peeking),
{
}

} // verus!
