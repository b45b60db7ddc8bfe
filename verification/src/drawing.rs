//! What is drawn of a fence window: which marks its items and tabs carry, what its header says,
//! and which part of the wallpaper it stands on.

use crate::model::{ColumnFlags, FenceId, ItemId, SortMode};
use crate::placement::{fits, half, halve, height_of, larger, width_of, Rect};
use crate::tabs::contains_id;
use crate::view_state::Redraw;
use vstd::prelude::*;

verus! {

// ---- columns ------------------------------------------------------------------------------

/// A column of the details.
#[derive(Clone, Copy, Debug, PartialEq, Eq, Structural)]
pub enum Column {
    Name,
    Date,
    Kind,
    Size,
}

/// The order that a click on a column's header gives.
pub open spec fn order_of(c: Column) -> SortMode {
    match c {
        Column::Name => SortMode::Name,
        Column::Date => SortMode::Date,
        Column::Kind => SortMode::Type,
        Column::Size => SortMode::Size,
    }
}

/// The order that a click on a column's header gives.
pub fn column_sort(c: Column) -> (r: SortMode)
    ensures
        r == order_of(c),
{
    match c {
        Column::Name => SortMode::Name,
        Column::Date => SortMode::Date,
        Column::Kind => SortMode::Type,
        Column::Size => SortMode::Size,
    }
}

/// The column whose header shows the order; none for an order that is not a column's.
pub fn sort_column(sort: SortMode) -> (r: Option<Column>)
    ensures
        r matches Some(c) ==> order_of(c) == sort,
        r is None ==> forall|c: Column| #[trigger] order_of(c) != sort,
{
    match sort {
        SortMode::Name => Some(Column::Name),
        SortMode::Date => Some(Column::Date),
        SortMode::Type => Some(Column::Kind),
        SortMode::Size => Some(Column::Size),
        _ => None,
    }
}

/// The columns that have a header: the name always, the others as they are shown.
pub open spec fn header_of(shown: ColumnFlags) -> Seq<Column> {
    let a = seq![Column::Name];
    let b = if shown.date {
        a.push(Column::Date)
    } else {
        a
    };
    let c = if shown.kind {
        b.push(Column::Kind)
    } else {
        b
    };
    if shown.size {
        c.push(Column::Size)
    } else {
        c
    }
}

/// The columns that have a header, none without one.
pub fn header_columns(has_header: bool, shown: &ColumnFlags) -> (r: Vec<Column>)
    ensures
        r@ == if has_header {
            header_of(*shown)
        } else {
            Seq::empty()
        },
{
    let mut out: Vec<Column> = Vec::new();
    if !has_header {
        return out;
    }
    out.push(Column::Name);
    assert(out@ =~= seq![Column::Name]);
    if shown.date {
        out.push(Column::Date);
    }
    if shown.kind {
        out.push(Column::Kind);
    }
    if shown.size {
        out.push(Column::Size);
    }
    out
}

// ---- captions -----------------------------------------------------------------------------

/// What a window without items says, as the key of the text.
pub fn empty_text(is_inbox: bool, drop_hover: bool, is_portal: bool) -> (r: &'static str)
    ensures
        r@ == if is_inbox {
            "没有未归类的项目"@
        } else if drop_hover {
            "松开以放入"@
        } else if is_portal {
            "此文件夹为空。"@
        } else {
            "将项目拖到此处"@
        },
{
    if is_inbox {
        "没有未归类的项目"
    } else if drop_hover {
        "松开以放入"
    } else if is_portal {
        "此文件夹为空。"
    } else {
        "将项目拖到此处"
    }
}

/// A section of items by their date.
#[derive(Clone, Copy, Debug, PartialEq, Eq, Structural)]
pub enum DateBucket {
    Today,
    Yesterday,
    ThisWeek,
    ThisMonth,
    Earlier,
}

/// The header of a section, as the key of the text.
pub fn bucket_caption(bucket: DateBucket) -> (r: &'static str)
    ensures
        r@ == match bucket {
            DateBucket::Today => "今天"@,
            DateBucket::Yesterday => "昨天"@,
            DateBucket::ThisWeek => "本周"@,
            DateBucket::ThisMonth => "本月"@,
            DateBucket::Earlier => "更早"@,
        },
{
    match bucket {
        DateBucket::Today => "今天",
        DateBucket::Yesterday => "昨天",
        DateBucket::ThisWeek => "本周",
        DateBucket::ThisMonth => "本月",
        DateBucket::Earlier => "更早",
    }
}

// ---- items --------------------------------------------------------------------------------

/// What the button is held on.
#[derive(Clone, Copy, Debug, PartialEq, Eq, Structural)]
pub enum PressTarget {
    Item(usize),
    Header(Column),
    Tab(usize),
    Up,
    Chevron,
}

/// What a window's contents go by when they are drawn.
pub struct ContentState {
    pub items: Vec<ItemId>,
    pub selected: Vec<usize>,
    /// The items that are on the clipboard to be moved.
    pub cut: Vec<ItemId>,
    pub hover: Option<usize>,
    /// A drag that began here is running.
    pub own_drag: bool,
    pub drop_item: Option<usize>,
    pub pressed: Option<PressTarget>,
    /// The pointer is still over what it pressed.
    pub press_inside: bool,
    pub focus_visible: bool,
    pub anchor: Option<usize>,
    pub renaming: Option<ItemId>,
}

/// The marks of an item.
#[derive(Clone, Copy, Debug, PartialEq, Eq, Structural)]
pub struct ItemMarks {
    pub hover: bool,
    pub selected: bool,
    pub drop_target: bool,
    pub pressed: bool,
    pub focused: bool,
    /// Drawn faint, as it is cut.
    pub dimmed: bool,
    /// Its name is drawn in full, where it does not fit its label.
    pub unfolded: bool,
}

/// The marks of the item at a place. The source of a drag is neither hovered nor pressed; the
/// selected item with the focus unfolds its name, but not under the edit box of its own rename.
pub open spec fn marks_of(c: ContentState, i: int) -> ItemMarks {
    ItemMarks {
        hover: c.hover == Some(i as usize) && !c.own_drag,
        selected: c.selected@.contains(i as usize),
        drop_target: c.drop_item == Some(i as usize),
        pressed: c.press_inside && c.pressed == Some(PressTarget::Item(i as usize)) && !c.own_drag,
        focused: c.focus_visible && c.anchor == Some(i as usize),
        dimmed: c.cut@.contains(c.items@[i]),
        unfolded: c.anchor == Some(i as usize) && c.selected@.contains(i as usize) && !c.own_drag
            && c.renaming != Some(c.items@[i]),
    }
}

fn is_at(o: Option<usize>, i: usize) -> (r: bool)
    ensures
        r == (o == Some(i)),
{
    match o {
        Some(k) => k == i,
        None => false,
    }
}

fn has_index(list: &Vec<usize>, k: usize) -> (r: bool)
    ensures
        r == list@.contains(k),
{
    let n: usize = list.len();
    for i in 0..n
        invariant
            n == list.len(),
            forall|j: int| 0 <= j < i ==> list@[j] != k,
    {
        if list[i] == k {
            return true;
        }
    }
    false
}

/// The marks of every item.
pub fn item_marks(c: &ContentState) -> (r: Vec<ItemMarks>)
    ensures
        r.len() == c.items.len(),
        forall|i: int| 0 <= i < r.len() ==> #[trigger] r@[i] == marks_of(*c, i),
{
    let mut out: Vec<ItemMarks> = Vec::new();
    let n: usize = c.items.len();
    for i in 0..n
        invariant
            n == c.items.len(),
            out.len() == i,
            forall|j: int| 0 <= j < i ==> #[trigger] out@[j] == marks_of(*c, j),
    {
        let selected: bool = has_index(&c.selected, i);
        let pressed: bool = match c.pressed {
            Some(PressTarget::Item(k)) => k == i,
            _ => false,
        };
        let renamed: bool = match c.renaming {
            Some(id) => id == c.items[i],
            None => false,
        };
        out.push(
            ItemMarks {
                hover: is_at(c.hover, i) && !c.own_drag,
                selected,
                drop_target: is_at(c.drop_item, i),
                pressed: c.press_inside && pressed && !c.own_drag,
                focused: c.focus_visible && is_at(c.anchor, i),
                dimmed: contains_id(&c.cut, c.items[i]),
                unfolded: is_at(c.anchor, i) && selected && !c.own_drag && !renamed,
            },
        );
    }
    out
}

/// One item at most is hovered, is the target of a drop, is pressed, has the focus or unfolds its
/// name; and a window in whose own drag the pointer is hovers and presses nothing.
pub proof fn marks_are_single(c: ContentState, i: int, j: int)
    requires
        0 <= i < c.items.len(),
        0 <= j < c.items.len(),
        i != j,
    ensures
        !(marks_of(c, i).hover && marks_of(c, j).hover),
        !(marks_of(c, i).drop_target && marks_of(c, j).drop_target),
        !(marks_of(c, i).pressed && marks_of(c, j).pressed),
        !(marks_of(c, i).focused && marks_of(c, j).focused),
        !(marks_of(c, i).unfolded && marks_of(c, j).unfolded),
        c.own_drag ==> !marks_of(c, i).hover && !marks_of(c, i).pressed && !marks_of(c, i).unfolded,
        marks_of(c, i).unfolded ==> marks_of(c, i).selected,
{
}

/// The header that is held down.
pub fn pressed_header(pressed: Option<PressTarget>, press_inside: bool) -> (r: Option<Column>)
    ensures
        r == match pressed {
            Some(PressTarget::Header(c)) => if press_inside {
                Some(c)
            } else {
                None
            },
            _ => None,
        },
{
    match pressed {
        Some(PressTarget::Header(c)) => if press_inside {
            Some(c)
        } else {
            None
        },
        _ => None,
    }
}

/// What of a window's contents is drawn.
#[derive(Clone, Copy, Debug, PartialEq, Eq, Structural)]
pub enum ContentKind {
    Panel,
    Rows,
    Grid,
}

pub fn content_kind(has_panel: bool, rows: bool) -> (r: ContentKind)
    ensures
        r == if has_panel {
            ContentKind::Panel
        } else if rows {
            ContentKind::Rows
        } else {
            ContentKind::Grid
        },
{
    if has_panel {
        ContentKind::Panel
    } else if rows {
        ContentKind::Rows
    } else {
        ContentKind::Grid
    }
}

/// How a panel stands in its window.
#[derive(Clone, Copy, Debug, PartialEq, Eq, Structural)]
pub enum Grouping {
    /// Alone.
    Single,
    /// As one of several tabs.
    Tabbed,
}

/// What a panel is told of its window before it is drawn.
#[derive(Clone, Copy, Debug, PartialEq, Eq, Structural)]
pub struct ContainerState {
    pub grouping: Grouping,
    pub visible: bool,
}

/// What a panel is told of its window: it is tabbed where the window has more than one tab, and
/// visible unless it is hidden.
pub open spec fn container_of(tabs: int, hidden: bool) -> ContainerState {
    ContainerState {
        grouping: if tabs > 1 {
            Grouping::Tabbed
        } else {
            Grouping::Single
        },
        visible: !hidden,
    }
}

/// What a panel is told of its window.
pub fn container_state(tabs: usize, hidden: bool) -> (r: ContainerState)
    ensures
        r == container_of(tabs as int, hidden),
{
    ContainerState {
        grouping: if tabs > 1 {
            Grouping::Tabbed
        } else {
            Grouping::Single
        },
        visible: !hidden,
    }
}

// ---- the title row ------------------------------------------------------------------------

/// What the title row goes by when it is drawn.
pub struct TitleState {
    pub tabs: Vec<FenceId>,
    pub active: FenceId,
    pub tab_hover: Option<usize>,
    pub drop_tab: Option<usize>,
    pub pressed: Option<PressTarget>,
    pub press_inside: bool,
    /// The tab that is dragged, past the distance of a click.
    pub dragged: Option<usize>,
}

/// The marks of a tab.
#[derive(Clone, Copy, Debug, PartialEq, Eq, Structural)]
pub struct TabMarks {
    pub active: bool,
    pub hover: bool,
    pub drop_target: bool,
    pub pressed: bool,
    pub dragging: bool,
}

/// The place of the tab in front: its first one, or the first of all where it is not there.
pub open spec fn front(tabs: Seq<FenceId>, active: FenceId) -> int {
    if tabs.contains(active) {
        tabs.index_of_first(active)->0
    } else {
        0
    }
}

/// The marks of the tab at a place. A single tab is a plain title, which is neither hovered nor a
/// target of its own.
pub open spec fn tab_marks_of(t: TitleState, i: int) -> TabMarks {
    let strip = t.tabs.len() > 1;
    TabMarks {
        active: i == front(t.tabs@, t.active),
        hover: strip && t.tab_hover == Some(i as usize),
        drop_target: strip && t.drop_tab == Some(i as usize),
        pressed: t.press_inside && t.pressed == Some(PressTarget::Tab(i as usize)),
        dragging: t.dragged == Some(i as usize),
    }
}

fn front_index(tabs: &Vec<FenceId>, active: FenceId) -> (r: usize)
    ensures
        r == front(tabs@, active),
{
    let n: usize = tabs.len();
    proof {
        tabs@.index_of_first_ensures(active);
    }
    for i in 0..n
        invariant
            n == tabs.len(),
            forall|j: int| 0 <= j < i ==> tabs@[j] != active,
    {
        if tabs[i] == active {
            proof {
                tabs@.index_of_first_ensures(active);
                assert(tabs@.contains(tabs@[i as int]));
            }
            return i;
        }
    }
    0
}

/// The marks of every tab.
pub fn tab_marks(t: &TitleState) -> (r: Vec<TabMarks>)
    ensures
        r.len() == t.tabs.len(),
        forall|i: int| 0 <= i < r.len() ==> #[trigger] r@[i] == tab_marks_of(*t, i),
{
    let mut out: Vec<TabMarks> = Vec::new();
    let n: usize = t.tabs.len();
    let strip: bool = n > 1;
    let active: usize = front_index(&t.tabs, t.active);
    for i in 0..n
        invariant
            n == t.tabs.len(),
            strip == (n > 1),
            active == front(t.tabs@, t.active),
            out.len() == i,
            forall|j: int| 0 <= j < i ==> #[trigger] out@[j] == tab_marks_of(*t, j),
    {
        let pressed: bool = match t.pressed {
            Some(PressTarget::Tab(k)) => k == i,
            _ => false,
        };
        out.push(
            TabMarks {
                active: i == active,
                hover: strip && is_at(t.tab_hover, i),
                drop_target: strip && is_at(t.drop_tab, i),
                pressed: t.press_inside && pressed,
                dragging: is_at(t.dragged, i),
            },
        );
    }
    out
}

/// Exactly one tab of a strip is in front.
pub proof fn one_tab_is_in_front(t: TitleState)
    requires
        t.tabs.len() > 0,
    ensures
        0 <= front(t.tabs@, t.active) < t.tabs.len(),
        forall|i: int|
            0 <= i < t.tabs.len() ==> (#[trigger] tab_marks_of(t, i)).active == (i == front(
                t.tabs@,
                t.active,
            )),
{
    if t.tabs@.contains(t.active) {
        t.tabs@.index_of_first_ensures(t.active);
    }
}

/// The number of items is drawn: while the window is rolled up, and while the number fades out.
pub fn shows_count(rolled: bool, fading: bool) -> (r: bool)
    ensures
        r == (rolled || fading),
{
    rolled || fading
}

// ---- icons --------------------------------------------------------------------------------

/// The icon of an item.
#[derive(Clone, Copy, Debug, PartialEq, Eq, Structural)]
pub struct IconState {
    pub loaded: bool,
    pub failed: bool,
    /// It was asked for and was not there at once.
    pub waited: bool,
    pub fading: bool,
}

/// What the store of icons has for an item.
#[derive(Clone, Copy, Debug, PartialEq, Eq, Structural)]
pub enum Lookup {
    Ready,
    Failed,
    Pending,
}

impl IconState {
    pub fn new() -> (r: Self)
        ensures
            r == (IconState { loaded: false, failed: false, waited: false, fading: false }),
    {
        IconState { loaded: false, failed: false, waited: false, fading: false }
    }

    /// The icon is still to come.
    pub fn is_pending(&self) -> (r: bool)
        ensures
            r == (!self.loaded && !self.failed),
    {
        !self.loaded && !self.failed
    }

    /// The store was asked for the icon. Returns whether a fade begins: an icon that was waited for
    /// fades in, one that is there at once does not.
    pub fn looked_up(&mut self, found: Lookup) -> (r: bool)
        requires
            !old(self).loaded && !old(self).failed,
        ensures
            r == (found == Lookup::Ready && old(self).waited),
            *final(self) == match found {
                Lookup::Ready => IconState {
                    loaded: true,
                    waited: false,
                    fading: old(self).fading || old(self).waited,
                    ..*old(self)
                },
                Lookup::Failed => IconState { failed: true, ..*old(self) },
                Lookup::Pending => IconState { waited: true, ..*old(self) },
            },
    {
        match found {
            Lookup::Ready => {
                let r: bool = self.waited;
                self.loaded = true;
                if r {
                    self.waited = false;
                    self.fading = true;
                }
                r
            },
            Lookup::Failed => {
                self.failed = true;
                false
            },
            Lookup::Pending => {
                self.waited = true;
                false
            },
        }
    }
}

/// Some icon is still to come.
pub fn has_pending_icons(icons: &Vec<IconState>) -> (r: bool)
    ensures
        r == exists|i: int|
            0 <= i < icons.len() && !(#[trigger] icons@[i]).loaded && !icons@[i].failed,
{
    let n: usize = icons.len();
    for i in 0..n
        invariant
            n == icons.len(),
            forall|j: int|
                0 <= j < i ==> (#[trigger] icons@[j]).loaded || icons@[j].failed,
    {
        if icons[i].is_pending() {
            assert(!icons@[i as int].loaded);
            return true;
        }
    }
    false
}

/// Lets every icon be loaded anew.
pub fn drop_icons(icons: &mut Vec<IconState>)
    ensures
        final(icons).len() == old(icons).len(),
        forall|i: int|
            0 <= i < final(icons).len() ==> #[trigger] final(icons)@[i] == (IconState {
                loaded: false,
                failed: false,
                waited: false,
                fading: false,
            }),
{
    let n: usize = icons.len();
    for i in 0..n
        invariant
            n == icons.len() == old(icons).len(),
            forall|j: int|
                0 <= j < i ==> #[trigger] icons@[j] == (IconState {
                    loaded: false,
                    failed: false,
                    waited: false,
                    fading: false,
                }),
    {
        icons.set(i, IconState::new());
    }
}

// ---- the wallpaper under a window ---------------------------------------------------------

/// A part of the screen.
#[derive(Clone, Copy, Debug, PartialEq, Eq, Structural)]
pub struct Area {
    pub left: i32,
    pub top: i32,
    pub width: i32,
    pub height: i32,
}

/// How a window is when its wallpaper is cut.
#[derive(Clone, Copy, Debug, PartialEq, Eq, Structural)]
pub struct CropSight {
    /// The window is of clear glass, whose rim follows its height.
    pub liquid_glass: bool,
    /// The height that the window is changing to.
    pub height_target: Option<i32>,
    pub height_changing: bool,
    /// What was cut last.
    pub cut: Option<Area>,
}

/// The height that is cut: while the height changes, that of the taller end.
pub open spec fn crop_height(r: Rect, s: CropSight) -> int {
    match s.height_target {
        Some(t) => if !s.liquid_glass {
            larger(height_of(r), t as int)
        } else {
            height_of(r)
        },
        None => height_of(r),
    }
}

/// What was cut last will do: it is at the same place and as wide, and as high or, while the height
/// changes, high enough.
pub open spec fn crop_holds(r: Rect, s: CropSight) -> bool {
    s.cut matches Some(a) && a.left == r.left && a.top == r.top && a.width == width_of(r) && (
    a.height == crop_height(r, s) || (!s.liquid_glass && s.height_changing && a.height
        >= crop_height(r, s)))
}

/// The part of the wallpaper that has to be cut for a window; none where the last one will do.
pub fn crop_wanted(r: &Rect, s: &CropSight) -> (out: Option<Area>)
    requires
        fits(width_of(*r)),
        fits(height_of(*r)),
    ensures
        out == if crop_holds(*r, *s) {
            None
        } else {
            Some(
                Area {
                    left: r.left,
                    top: r.top,
                    width: width_of(*r) as i32,
                    height: crop_height(*r, *s) as i32,
                },
            )
        },
{
    let w: i32 = r.right - r.left;
    let mut h: i32 = r.bottom - r.top;
    if !s.liquid_glass {
        if let Some(t) = s.height_target {
            if t > h {
                h = t;
            }
        }
    }
    if let Some(a) = s.cut {
        if a.left == r.left && a.top == r.top && a.width == w && (a.height == h || (!s.liquid_glass
            && s.height_changing && a.height >= h)) {
            return None;
        }
    }
    Some(Area { left: r.left, top: r.top, width: w, height: h })
}

/// What was just cut for a window will do for it.
pub proof fn a_crop_is_cut_once(r: Rect, s: CropSight)
    requires
        fits(width_of(r)),
        fits(height_of(r)),
    ensures
        crop_holds(
            r,
            CropSight {
                cut: Some(
                    Area {
                        left: r.left,
                        top: r.top,
                        width: width_of(r) as i32,
                        height: crop_height(r, s) as i32,
                    },
                ),
                ..s
            },
        ),
{
}

/// The area holds the point.
pub open spec fn area_holds(a: Area, x: int, y: int) -> bool {
    a.left <= x < a.left + a.width && a.top <= y < a.top + a.height
}

/// The first of the areas that holds a point, else the first of all.
pub open spec fn area_under(areas: Seq<Area>, x: int, y: int, from: int) -> Option<int>
    decreases areas.len() - from,
{
    if from >= areas.len() || from < 0 {
        if areas.len() > 0 {
            Some(0)
        } else {
            None
        }
    } else if area_holds(areas[from], x, y) {
        Some(from)
    } else {
        area_under(areas, x, y, from + 1)
    }
}

/// The screen whose wallpaper is under a window: the one that its middle is on. `cut` is what is
/// cut for it.
pub fn screen_under(areas: &Vec<Area>, r: &Rect, cut: &Area) -> (out: Option<usize>)
    requires
        fits(height_of(*r)),
    ensures
        ({
            let h = if cut.height <= height_of(*r) {
                cut.height as int
            } else {
                height_of(*r)
            };
            match out {
                Some(i) => area_under(
                    areas@,
                    r.left + half(cut.width as int),
                    r.top + half(h),
                    0,
                ) == Some(i as int),
                None => areas.len() == 0,
            }
        }),
{
    let own: i32 = r.bottom - r.top;
    let h: i32 = if cut.height <= own {
        cut.height
    } else {
        own
    };
    let x: i64 = r.left as i64 + halve(cut.width) as i64;
    let y: i64 = r.top as i64 + halve(h) as i64;
    let n: usize = areas.len();
    for i in 0..n
        invariant
            n == areas.len(),
            x == r.left + half(cut.width as int),
            y == r.top + half(h as int),
            h == if cut.height <= height_of(*r) {
                cut.height as int
            } else {
                height_of(*r)
            },
            area_under(areas@, x as int, y as int, 0) == area_under(
                areas@,
                x as int,
                y as int,
                i as int,
            ),
    {
        let a = &areas[i];
        let right: i64 = a.left as i64 + a.width as i64;
        let bottom: i64 = a.top as i64 + a.height as i64;
        if x >= a.left as i64 && x < right && y >= a.top as i64 && y < bottom {
            return Some(i);
        }
    }
    if n > 0 {
        Some(0)
    } else {
        None
    }
}

/// What a window is drawn on.
#[derive(Clone, Copy, Debug, PartialEq, Eq, Structural)]
pub enum Ground {
    /// Clear glass over this part of the wallpaper.
    ClearGlass(Area),
    /// The cut part of the wallpaper.
    Glass,
    Solid,
}

/// What a window is drawn on: clear glass where there is a wallpaper for it, else what was cut of
/// the wallpaper, else a plain colour. `cut` is the area that was cut, `window` the window's own.
pub fn ground_of(
    acrylic: bool,
    liquid_glass: bool,
    has_wallpaper: bool,
    has_crop: bool,
    cut: Option<Area>,
    window: Area,
) -> (r: Ground)
    ensures
        r == if !acrylic {
            Ground::Solid
        } else if liquid_glass && has_wallpaper {
            Ground::ClearGlass(
                match cut {
                    Some(a) => a,
                    None => window,
                },
            )
        } else if has_crop {
            Ground::Glass
        } else {
            Ground::Solid
        },
{
    if !acrylic {
        return Ground::Solid;
    }
    if liquid_glass && has_wallpaper {
        return Ground::ClearGlass(
            match cut {
                Some(a) => a,
                None => window,
            },
        );
    }
    if has_crop {
        Ground::Glass
    } else {
        Ground::Solid
    }
}

/// What is drawn anew once the wallpaper under a window has changed: everything where the colour
/// of the text changes with it, or where rows stand on clear glass.
pub fn redraw_after_crop(changed: bool, ink_changed: bool, rows_on_glass: bool) -> (r: Redraw)
    ensures
        r == if !changed {
            Redraw::Nothing
        } else if ink_changed || rows_on_glass {
            Redraw::All
        } else {
            Redraw::Chrome
        },
{
    if !changed {
        Redraw::Nothing
    } else if ink_changed || rows_on_glass {
        Redraw::All
    } else {
        Redraw::Chrome
    }
}

/// The columns of a header are the name and those that are shown, from date over kind to size.
pub proof fn the_name_is_always_a_column(shown: ColumnFlags)
    ensures
        header_of(shown) == seq![Column::Name, Column::Date, Column::Kind, Column::Size].filter(
            |c: Column|
                match c {
                    Column::Name => true,
                    Column::Date => shown.date,
                    Column::Kind => shown.kind,
                    Column::Size => shown.size,
                },
        ),
{
    let p = |c: Column|
        match c {
            Column::Name => true,
            Column::Date => shown.date,
            Column::Kind => shown.kind,
            Column::Size => shown.size,
        };
    let all = seq![Column::Name, Column::Date, Column::Kind, Column::Size];
    reveal(Seq::filter);
    let a3 = all.drop_last();
    let a2 = a3.drop_last();
    let a1 = a2.drop_last();
    let a0 = a1.drop_last();
    assert(a0 =~= Seq::<Column>::empty());
    assert(a0.filter(p) =~= Seq::<Column>::empty());
    assert(a1.filter(p) =~= seq![Column::Name]);
    let b = if shown.date {
        seq![Column::Name].push(Column::Date)
    } else {
        seq![Column::Name]
    };
    assert(a2.last() == Column::Date && a3.last() == Column::Kind && all.last() == Column::Size);
    assert(a2.filter(p) == b);
    assert(a3.filter(p) == if shown.kind {
        b.push(Column::Kind)
    } else {
        b
    });
}

/// Each column sorts by what it shows.
pub proof fn columns_sort_by_what_they_show(c: Column)
    ensures
        c is Name <==> order_of(c) is Name,
        c is Date <==> order_of(c) is Date,
        c is Kind <==> order_of(c) is Type,
        c is Size <==> order_of(c) is Size,
{
}

/// What is marked on an item is what was said of that item, and nothing of it while a drag that
/// began here goes on but its selection, its cut and where things would be dropped.
pub proof fn marks_follow_the_state(c: ContentState, i: usize)
    requires
        i < c.items.len(),
    ensures
        ({
            let m = marks_of(c, i as int);
            &&& m.selected == c.selected@.contains(i)
            &&& m.dimmed == c.cut@.contains(c.items@[i as int])
            &&& m.drop_target == (c.drop_item == Some(i))
            &&& !c.own_drag ==> m.hover == (c.hover == Some(i))
            &&& m.focused == (c.focus_visible && c.anchor == Some(i))
            &&& m.pressed ==> c.press_inside && c.pressed == Some(PressTarget::Item(i))
            &&& !c.own_drag && c.press_inside && c.pressed == Some(PressTarget::Item(i)) ==> m.pressed
            &&& m.unfolded ==> m.selected && c.anchor == Some(i) && c.renaming
                != Some(c.items@[i as int])
            &&& !c.own_drag && m.selected && c.anchor == Some(i) && c.renaming
                != Some(c.items@[i as int]) ==> m.unfolded
        }),
{
}

/// Several tabs make a group, and what is hidden is not visible.
pub proof fn several_tabs_make_a_group(tabs: int, hidden: bool)
    ensures
        tabs >= 2 <==> container_of(tabs, hidden).grouping is Tabbed,
        container_of(tabs, hidden).visible == !hidden,
{
}

/// A tab that is alone is neither hovered nor a place to drop on.
pub proof fn a_single_tab_has_no_marks_of_a_strip(t: TitleState, i: usize)
    requires
        i < t.tabs.len(),
    ensures
        ({
            let m = tab_marks_of(t, i as int);
            &&& t.tabs.len() == 1 ==> !m.hover && !m.drop_target
            &&& t.tabs.len() > 1 ==> m.hover == (t.tab_hover == Some(i)) && m.drop_target == (
            t.drop_tab == Some(i))
            &&& m.pressed == (t.press_inside && t.pressed == Some(PressTarget::Tab(i)))
            &&& m.dragging == (t.dragged == Some(i))
            &&& t.tabs@[i as int] == t.active && (forall|j: int|
                0 <= j < i ==> #[trigger] t.tabs@[j] != t.active) ==> m.active
        }),
{
    let s = t.tabs@;
    if s[i as int] == t.active && (forall|j: int| 0 <= j < i ==> #[trigger] s[j] != t.active) {
        assert(s.contains(t.active));
        s.index_of_first_ensures(t.active);
        let k = s.index_of_first(t.active)->0;
        if k < i {
            assert(s[k] != t.active);
        }
    }
}

/// The screen under a point is the first one that holds it, or the first of all where none does.
pub proof fn the_first_screen_that_holds_a_point(
    areas: Seq<Area>,
    x: int,
    y: int,
    from: int,
    i: int,
)
    requires
        0 <= from <= i <= areas.len(),
        areas.len() > 0,
        forall|j: int|
            from <= j < i ==> !((#[trigger] areas[j]).left <= x < areas[j].left + areas[j].width
                && areas[j].top <= y < areas[j].top + areas[j].height),
    ensures
        i < areas.len() && areas[i].left <= x < areas[i].left + areas[i].width && areas[i].top <= y
            < areas[i].top + areas[i].height ==> area_under(areas, x, y, from) == Some(i),
        i == areas.len() ==> area_under(areas, x, y, from) == Some(0int),
    decreases i - from,
{
    if from < i {
        let a = areas[from];
        the_first_screen_that_holds_a_point(areas, x, y, from + 1, i);
    }
}

/// The part of the wallpaper behind a window covers the window, and the height that it is growing
/// to except behind clear glass.
pub proof fn a_crop_covers_the_window(r: Rect, s: CropSight)
    ensures
        crop_height(r, s) >= r.bottom - r.top,
        s.liquid_glass || s.height_target is None ==> crop_height(r, s) == r.bottom - r.top,
        !s.liquid_glass && s.height_target is Some ==> crop_height(r, s) >= s.height_target->0 && (
        crop_height(r, s) == s.height_target->0 || crop_height(r, s) == r.bottom - r.top),
        crop_holds(r, s) ==> s.cut is Some && s.cut->0.left == r.left && s.cut->0.top == r.top
            && s.cut->0.width == r.right - r.left && s.cut->0.height >= r.bottom - r.top,
        crop_holds(r, s) && !s.height_changing ==> s.cut->0.height == crop_height(r, s),
        s.cut is None ==> !crop_holds(r, s),
{
}

/// A window without the material stands on solid ground; clear glass shows the wallpaper where
/// there is one, and the cut part of it is used otherwise.
pub proof fn glass_needs_a_wallpaper(
    acrylic: bool,
    liquid_glass: bool,
    has_wallpaper: bool,
    has_crop: bool,
    cut: Option<Area>,
    window: Area,
    r: Ground,
)
    requires
        call_ensures(
            ground_of,
            (acrylic, liquid_glass, has_wallpaper, has_crop, cut, window),
            r,
        ),
    ensures
        !acrylic ==> r is Solid,
        r is ClearGlass <==> acrylic && liquid_glass && has_wallpaper,
        r is Glass <==> acrylic && !(liquid_glass && has_wallpaper) && has_crop,
        r is ClearGlass && cut is Some ==> r == Ground::ClearGlass(cut->0),
        r is ClearGlass && cut is None ==> r == Ground::ClearGlass(window),
{
}

} // verus!
