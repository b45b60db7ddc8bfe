//! The persistent data: items, fences, layouts and the configuration that holds them.
//!
//! Identifiers are the 128-bit values of UUIDs. Lengths are kept as [`Dip`]s. A type that holds a
//! vector has a model, a value of the same shape over sequences, which the contracts speak of.

use crate::dip::Dip;
use crate::settings::{Backdrop, Rgb, Settings};
use std::collections::HashMap;
use vstd::prelude::*;

verus! {

pub const SCHEMA_VERSION: u32 = 1;

/// The most snapshots that are kept.
pub const MAX_SNAPSHOTS: usize = 20;

pub type FenceId = u128;

pub type ItemId = u128;

pub type RuleId = u128;

// ---- items --------------------------------------------------------------------------------

/// What identifies an item on the desktop.
#[derive(Debug, PartialEq, Eq, Hash)]
pub enum ItemKey {
    /// Lower-cased, normalized absolute path.
    Path(String),
    /// Encoded shell identifier of a namespace item.
    Pidl(String),
}

impl Clone for ItemKey {
    fn clone(&self) -> (r: Self)
        ensures
            r == *self,
    {
        match self {
            ItemKey::Path(p) => ItemKey::Path(p.clone()),
            ItemKey::Pidl(p) => ItemKey::Pidl(p.clone()),
        }
    }
}

/// The text and the variant of a key: two keys are the same where these are.
pub open spec fn key_text(k: ItemKey) -> (bool, Seq<char>) {
    match k {
        ItemKey::Path(p) => (true, p@),
        ItemKey::Pidl(p) => (false, p@),
    }
}

impl ItemKey {
    /// Whether two keys are the same.
    pub fn same(&self, other: &ItemKey) -> (r: bool)
        ensures
            r == (key_text(*self) == key_text(*other)),
    {
        match (self, other) {
            (ItemKey::Path(a), ItemKey::Path(b)) => *a == *b,
            (ItemKey::Pidl(a), ItemKey::Pidl(b)) => *a == *b,
            _ => false,
        }
    }
}

/// Where an item lives.
#[derive(Clone, Copy, Debug, PartialEq, Eq, Structural)]
pub enum Origin {
    UserDesktop,
    PublicDesktop,
    Namespace,
}

impl Default for Origin {
    fn default() -> (r: Self)
        ensures
            r == Origin::UserDesktop,
    {
        Origin::UserDesktop
    }
}

/// Which icon an item is drawn with.
#[derive(Debug, PartialEq, Eq, Hash)]
pub enum IconKey {
    /// Shared by every file with this extension.
    ByExt(String),
    /// Specific to one file.
    ByContent { path: String, mtime: i64 },
}

impl Clone for IconKey {
    fn clone(&self) -> (r: Self)
        ensures
            r == *self,
    {
        match self {
            IconKey::ByExt(e) => IconKey::ByExt(e.clone()),
            IconKey::ByContent { path, mtime } => IconKey::ByContent {
                path: path.clone(),
                mtime: *mtime,
            },
        }
    }
}

/// The text, the time and the variant of an icon key: two are the same where these are.
pub open spec fn icon_text(k: IconKey) -> (bool, Seq<char>, int) {
    match k {
        IconKey::ByExt(e) => (true, e@, 0),
        IconKey::ByContent { path, mtime } => (false, path@, mtime as int),
    }
}

impl IconKey {
    /// Whether two icon keys are the same.
    pub fn same(&self, other: &IconKey) -> (r: bool)
        ensures
            r == (icon_text(*self) == icon_text(*other)),
    {
        match (self, other) {
            (IconKey::ByExt(a), IconKey::ByExt(b)) => *a == *b,
            (
                IconKey::ByContent { path: a, mtime: ma },
                IconKey::ByContent { path: b, mtime: mb },
            ) => *a == *b && *ma == *mb,
            _ => false,
        }
    }
}

/// One file, folder or namespace entry of the desktop, or of a folder shown by a portal.
#[derive(Debug, PartialEq, Eq)]
pub struct Item {
    pub id: ItemId,
    pub key: ItemKey,
    pub origin: Origin,
    pub display_name: String,
    pub file_id: Option<u128>,
    pub mtime: i64,
    pub is_folder: bool,
    pub attrs: u32,
    pub icon_key: IconKey,
    /// Unix seconds at which the item was first missing.
    pub orphaned_since: Option<i64>,
    /// Size in bytes, 0 for folders.
    pub size: u64,
    /// How often the item was launched from a fence.
    pub open_count: u32,
    /// Unix seconds of the last launch from a fence.
    pub last_opened: Option<i64>,
}

impl Clone for Item {
    fn clone(&self) -> (r: Self)
        ensures
            r == *self,
    {
        Item {
            id: self.id,
            key: self.key.clone(),
            origin: self.origin,
            display_name: self.display_name.clone(),
            file_id: self.file_id,
            mtime: self.mtime,
            is_folder: self.is_folder,
            attrs: self.attrs,
            icon_key: self.icon_key.clone(),
            orphaned_since: self.orphaned_since,
            size: self.size,
            open_count: self.open_count,
            last_opened: self.last_opened,
        }
    }
}

/// Who put an item into a fence.
#[derive(Clone, Copy, Debug, PartialEq, Eq, Structural)]
pub enum AssignedBy {
    User,
    Rule(RuleId),
    Migration,
}

/// The membership of one item in one fence.
#[derive(Clone, Copy, Debug, PartialEq, Eq, Structural)]
pub struct ItemRef {
    pub item_id: ItemId,
    pub manual_index: Option<u32>,
    pub assigned_by: AssignedBy,
}

/// One move of an item into a fence.
#[derive(Clone, Copy, Debug, PartialEq, Eq, Structural)]
pub struct Assignment {
    pub ts: i64,
    pub item_id: ItemId,
    pub from: Option<FenceId>,
    pub to: FenceId,
    pub rule_id: Option<RuleId>,
}

// ---- fences -------------------------------------------------------------------------------

#[derive(Clone, Copy, Debug, PartialEq, Eq, Structural)]
pub enum FenceKind {
    Virtual,
    /// The fence that receives everything unassigned.
    Inbox,
    FolderPortal,
}

/// Where the files of a fence come from.
#[derive(Debug, PartialEq, Eq)]
pub enum ItemSourceSpec {
    Desktop,
    Folder { path: String, recursive: bool, filter: Option<String> },
}

impl Clone for ItemSourceSpec {
    fn clone(&self) -> (r: Self)
        ensures
            r == *self,
    {
        match self {
            ItemSourceSpec::Desktop => ItemSourceSpec::Desktop,
            ItemSourceSpec::Folder { path, recursive, filter } => ItemSourceSpec::Folder {
                path: path.clone(),
                recursive: *recursive,
                filter: match filter {
                    Some(f) => Some(f.clone()),
                    None => None,
                },
            },
        }
    }
}

/// The edge or corner of the work area that a fence keeps its distance to.
#[derive(Clone, Copy, Debug, PartialEq, Eq, Structural)]
pub enum Anchor {
    LeftTop,
    LeftBottom,
    LeftVCenter,
    RightTop,
    RightBottom,
    RightVCenter,
    HCenterTop,
    HCenterBottom,
    Center,
}

/// Fence geometry relative to a monitor's work area.
#[derive(Debug, PartialEq, Eq)]
pub struct NormGeometry {
    pub monitor: String,
    pub x: Dip,
    pub y: Dip,
    pub w: Dip,
    pub h: Dip,
    pub work_w: Dip,
    pub work_h: Dip,
    pub anchor: Anchor,
}

/// The model of a [`NormGeometry`].
pub struct GeometryModel {
    pub monitor: Seq<char>,
    pub x: Dip,
    pub y: Dip,
    pub w: Dip,
    pub h: Dip,
    pub work_w: Dip,
    pub work_h: Dip,
    pub anchor: Anchor,
}

impl View for NormGeometry {
    type V = GeometryModel;

    open spec fn view(&self) -> GeometryModel {
        GeometryModel {
            monitor: self.monitor@,
            x: self.x,
            y: self.y,
            w: self.w,
            h: self.h,
            work_w: self.work_w,
            work_h: self.work_h,
            anchor: self.anchor,
        }
    }
}

impl Clone for NormGeometry {
    fn clone(&self) -> (r: Self)
        ensures
            r == *self,
    {
        NormGeometry {
            monitor: self.monitor.clone(),
            x: self.x,
            y: self.y,
            w: self.w,
            h: self.h,
            work_w: self.work_w,
            work_h: self.work_h,
            anchor: self.anchor,
        }
    }
}

#[derive(Clone, Copy, Debug, PartialEq, Eq, Structural)]
pub enum SortMode {
    Manual,
    Name,
    Type,
    Date,
    Size,
    /// Most often opened first.
    OpenCount,
}

/// How a fence lays out its items.
#[derive(Clone, Copy, Debug, PartialEq, Eq, Structural)]
pub enum ViewLayout {
    /// Icon grid with labels underneath.
    Icons,
    /// Compact rows: small icon and name.
    List,
    /// Rows with sortable columns.
    Details,
}

impl Default for ViewLayout {
    fn default() -> (r: Self)
        ensures
            r == ViewLayout::Icons,
    {
        ViewLayout::Icons
    }
}

#[derive(Clone, Copy, Debug, PartialEq, Eq, Structural)]
pub enum TitleSize {
    Small,
    Normal,
    Large,
}

impl Default for TitleSize {
    fn default() -> (r: Self)
        ensures
            r == TitleSize::Normal,
    {
        TitleSize::Normal
    }
}

/// Distance between icons in the grid.
#[derive(Clone, Copy, Debug, PartialEq, Eq, Structural)]
pub enum Spacing {
    Compact,
    Normal,
    Loose,
}

impl Default for Spacing {
    fn default() -> (r: Self)
        ensures
            r == Spacing::Normal,
    {
        Spacing::Normal
    }
}

/// Widths of the date, type and size columns.
#[derive(Clone, Copy, Debug, PartialEq, Eq, Structural)]
pub struct ColumnWidths {
    pub date: Dip,
    pub kind: Dip,
    pub size: Dip,
}

/// Whether the date, type and size columns are shown.
#[derive(Clone, Copy, Debug, PartialEq, Eq, Structural)]
pub struct ColumnFlags {
    pub date: bool,
    pub kind: bool,
    pub size: bool,
}

/// How one fence shows its items.
#[derive(Clone, Copy, Debug, PartialEq, Eq, Structural)]
pub struct FenceView {
    pub icon_size: u32,
    pub sort: SortMode,
    pub label_lines: u8,
    pub auto_height: bool,
    pub reverse: bool,
    pub layout: ViewLayout,
    pub spacing: Spacing,
    /// Widths of the date, type and size columns; none for the defaults.
    pub column_widths: Option<ColumnWidths>,
    /// Whether the date, type and size columns are shown; none for all.
    pub columns_visible: Option<ColumnFlags>,
    /// Items under one header per date section. Implies sorting by date.
    pub group_by_date: bool,
}

pub open spec fn default_fence_view() -> FenceView {
    FenceView {
        icon_size: 48,
        sort: SortMode::Manual,
        label_lines: 2,
        auto_height: false,
        reverse: false,
        layout: ViewLayout::Icons,
        spacing: Spacing::Normal,
        column_widths: None,
        columns_visible: None,
        group_by_date: false,
    }
}

impl Default for FenceView {
    fn default() -> (r: Self)
        ensures
            r == default_fence_view(),
    {
        FenceView {
            icon_size: 48,
            sort: SortMode::Manual,
            label_lines: 2,
            auto_height: false,
            reverse: false,
            layout: ViewLayout::Icons,
            spacing: Spacing::Normal,
            column_widths: None,
            columns_visible: None,
            group_by_date: false,
        }
    }
}

/// What one fence draws otherwise than the settings say.
#[derive(Clone, Copy, Debug, PartialEq, Eq, Structural)]
pub struct AppearanceOverride {
    /// Colour wash over the glass.
    pub tint_rgb: Option<Rgb>,
    pub opacity: Option<Dip>,
    pub backdrop: Option<Backdrop>,
    /// Title text colour.
    pub title_rgb: Option<Rgb>,
    pub title_size: Option<TitleSize>,
}

pub open spec fn no_override() -> AppearanceOverride {
    AppearanceOverride {
        tint_rgb: None,
        opacity: None,
        backdrop: None,
        title_rgb: None,
        title_size: None,
    }
}

impl Default for AppearanceOverride {
    fn default() -> (r: Self)
        ensures
            r == no_override(),
    {
        AppearanceOverride {
            tint_rgb: None,
            opacity: None,
            backdrop: None,
            title_rgb: None,
            title_size: None,
        }
    }
}

/// A panel that a provider draws. The host reads the provider's name and the version; the
/// configuration is JSON text that belongs to the provider.
#[derive(Debug, PartialEq, Eq)]
pub struct PanelSpec {
    pub provider: String,
    pub instance_id: u128,
    pub config_version: u16,
    pub config: String,
}

impl Clone for PanelSpec {
    fn clone(&self) -> (r: Self)
        ensures
            r == *self,
    {
        PanelSpec {
            provider: self.provider.clone(),
            instance_id: self.instance_id,
            config_version: self.config_version,
            config: self.config.clone(),
        }
    }
}

/// What a fence shows: files, or a panel.
#[derive(Debug, PartialEq, Eq)]
pub enum FenceContentSpec {
    Files { source: ItemSourceSpec },
    Panel { panel: PanelSpec },
}

impl Clone for FenceContentSpec {
    fn clone(&self) -> (r: Self)
        ensures
            r == *self,
    {
        match self {
            FenceContentSpec::Files { source } => FenceContentSpec::Files { source: source.clone() },
            FenceContentSpec::Panel { panel } => FenceContentSpec::Panel { panel: panel.clone() },
        }
    }
}

impl Default for FenceContentSpec {
    fn default() -> (r: Self)
        ensures
            r == (FenceContentSpec::Files { source: ItemSourceSpec::Desktop }),
    {
        FenceContentSpec::Files { source: ItemSourceSpec::Desktop }
    }
}

impl FenceContentSpec {
    /// Whether the content is files.
    pub fn is_files(&self) -> (r: bool)
        ensures
            r == (*self is Files),
    {
        match self {
            FenceContentSpec::Files { .. } => true,
            FenceContentSpec::Panel { .. } => false,
        }
    }
}

/// One fence of a layout.
#[derive(Debug, PartialEq, Eq)]
pub struct Fence {
    pub id: FenceId,
    pub title: String,
    pub kind: FenceKind,
    pub source: ItemSourceSpec,
    pub content: FenceContentSpec,
    pub geometry: NormGeometry,
    pub rolled_up: bool,
    /// Height to restore when un-rolling.
    pub expanded_h: Dip,
    pub view: FenceView,
    pub appearance: Option<AppearanceOverride>,
    pub exclude_from_quick_hide: bool,
    /// Position and size cannot be changed with the mouse.
    pub locked: bool,
    /// The fence in whose window this one is a tab. Its own geometry is kept for later.
    pub tab_host: Option<FenceId>,
    /// On a host: the tab whose items the window shows; none for its own.
    pub active_tab: Option<FenceId>,
    /// On a host: strip order of its tabs, the host itself among them.
    pub tab_order: Vec<FenceId>,
    /// Folder portal: double-clicking a subfolder opens it inside the portal.
    pub portal_navigate: bool,
    /// Folder portal: no folder glyph before the title.
    pub hide_title_icon: bool,
    pub items: Vec<ItemRef>,
}

/// The model of a [`Fence`].
pub struct FenceModel {
    pub id: FenceId,
    pub title: Seq<char>,
    pub kind: FenceKind,
    pub source: ItemSourceSpec,
    pub content: FenceContentSpec,
    pub geometry: GeometryModel,
    pub rolled_up: bool,
    pub expanded_h: Dip,
    pub view: FenceView,
    pub appearance: Option<AppearanceOverride>,
    pub exclude_from_quick_hide: bool,
    pub locked: bool,
    pub tab_host: Option<FenceId>,
    pub active_tab: Option<FenceId>,
    pub tab_order: Seq<FenceId>,
    pub portal_navigate: bool,
    pub hide_title_icon: bool,
    pub items: Seq<ItemRef>,
}

impl View for Fence {
    type V = FenceModel;

    open spec fn view(&self) -> FenceModel {
        FenceModel {
            id: self.id,
            title: self.title@,
            kind: self.kind,
            source: self.source,
            content: self.content,
            geometry: self.geometry@,
            rolled_up: self.rolled_up,
            expanded_h: self.expanded_h,
            view: self.view,
            appearance: self.appearance,
            exclude_from_quick_hide: self.exclude_from_quick_hide,
            locked: self.locked,
            tab_host: self.tab_host,
            active_tab: self.active_tab,
            tab_order: self.tab_order@,
            portal_navigate: self.portal_navigate,
            hide_title_icon: self.hide_title_icon,
            items: self.items@,
        }
    }
}

impl Clone for Fence {
    fn clone(&self) -> (r: Self)
        ensures
            r@ == self@,
    {
        let tab_order = self.tab_order.clone();
        let items = self.items.clone();
        assert(tab_order@ =~= self.tab_order@);
        assert(items@ =~= self.items@);
        Fence {
            id: self.id,
            title: self.title.clone(),
            kind: self.kind,
            source: self.source.clone(),
            content: self.content.clone(),
            geometry: self.geometry.clone(),
            rolled_up: self.rolled_up,
            expanded_h: self.expanded_h,
            view: self.view,
            appearance: self.appearance,
            exclude_from_quick_hide: self.exclude_from_quick_hide,
            locked: self.locked,
            tab_host: self.tab_host,
            active_tab: self.active_tab,
            tab_order,
            portal_navigate: self.portal_navigate,
            hide_title_icon: self.hide_title_icon,
            items,
        }
    }
}

/// The models of a sequence of fences.
pub open spec fn fence_models(fences: Seq<Fence>) -> Seq<FenceModel> {
    Seq::new(fences.len(), |i: int| fences[i]@)
}

// ---- layouts ------------------------------------------------------------------------------

/// Identifies a monitor across sessions.
#[derive(Debug, PartialEq, Eq)]
pub struct MonitorIdentity {
    pub device_path: String,
    /// Work-area size at save time.
    pub work_dip: [Dip; 2],
    pub dpi: u32,
}

impl Clone for MonitorIdentity {
    fn clone(&self) -> (r: Self)
        ensures
            r == *self,
    {
        MonitorIdentity {
            device_path: self.device_path.clone(),
            work_dip: self.work_dip,
            dpi: self.dpi,
        }
    }
}

/// The fences of one set of monitors.
#[derive(Debug, PartialEq, Eq)]
pub struct Layout {
    /// The monitors that the layout is for.
    pub fingerprint: Vec<MonitorIdentity>,
    pub fences: Vec<Fence>,
}

/// The model of a [`Layout`].
pub struct LayoutModel {
    pub fingerprint: Seq<MonitorIdentity>,
    pub fences: Seq<FenceModel>,
}

impl View for Layout {
    type V = LayoutModel;

    open spec fn view(&self) -> LayoutModel {
        LayoutModel { fingerprint: self.fingerprint@, fences: fence_models(self.fences@) }
    }
}

/// Copies every fence.
pub fn clone_fences(fences: &Vec<Fence>) -> (r: Vec<Fence>)
    ensures
        fence_models(r@) == fence_models(fences@),
{
    let mut out: Vec<Fence> = Vec::new();
    let n: usize = fences.len();
    for i in 0..n
        invariant
            n == fences.len(),
            out.len() == i,
            forall|j: int| 0 <= j < i ==> (#[trigger] out@[j])@ == fences@[j]@,
    {
        out.push(fences[i].clone());
    }
    assert(fence_models(out@) =~= fence_models(fences@));
    out
}

impl Clone for Layout {
    fn clone(&self) -> (r: Self)
        ensures
            r@ == self@,
    {
        let fingerprint = self.fingerprint.clone();
        assert(fingerprint@ =~= self.fingerprint@);
        Layout { fingerprint, fences: clone_fences(&self.fences) }
    }
}

/// The models of a sequence of layouts.
pub open spec fn layout_models(layouts: Seq<Layout>) -> Seq<LayoutModel> {
    Seq::new(layouts.len(), |i: int| layouts[i]@)
}

/// Copies every layout.
pub fn clone_layouts(layouts: &Vec<Layout>) -> (r: Vec<Layout>)
    ensures
        layout_models(r@) == layout_models(layouts@),
{
    let mut out: Vec<Layout> = Vec::new();
    let n: usize = layouts.len();
    for i in 0..n
        invariant
            n == layouts.len(),
            out.len() == i,
            forall|j: int| 0 <= j < i ==> (#[trigger] out@[j])@ == layouts@[j]@,
    {
        out.push(layouts[i].clone());
    }
    assert(layout_models(out@) =~= layout_models(layouts@));
    out
}

/// A named copy of every layout, taken at a time.
#[derive(Debug, PartialEq, Eq)]
pub struct Snapshot {
    pub id: u128,
    pub name: String,
    pub ts: i64,
    pub layouts: Vec<Layout>,
}

/// The model of a [`Snapshot`].
pub struct SnapshotModel {
    pub id: u128,
    pub name: Seq<char>,
    pub ts: i64,
    pub layouts: Seq<LayoutModel>,
}

impl View for Snapshot {
    type V = SnapshotModel;

    open spec fn view(&self) -> SnapshotModel {
        SnapshotModel {
            id: self.id,
            name: self.name@,
            ts: self.ts,
            layouts: layout_models(self.layouts@),
        }
    }
}

/// The models of a sequence of snapshots.
pub open spec fn snapshot_models(snaps: Seq<Snapshot>) -> Seq<SnapshotModel> {
    Seq::new(snaps.len(), |i: int| snaps[i]@)
}

// ---- rules --------------------------------------------------------------------------------

/// Where a rule sends an item.
#[derive(Clone, Copy, Debug, PartialEq, Eq, Structural)]
pub enum Target {
    Inbox,
    Fence(FenceId),
}

/// What the rules say of an item.
#[derive(Clone, Copy, Debug, PartialEq, Eq, Structural)]
pub enum Decision {
    /// The item is left alone.
    Skip,
    Route { target: Target, rule: RuleId },
    Default(Target),
}

/// One condition of a rule, as far as filing depends on its kind.
#[derive(Clone, Copy, Debug, PartialEq, Eq, Structural)]
pub enum Cond {
    /// The item was neither written nor opened for so many days.
    IdleDays { days: u32 },
    /// Any condition that does not depend on the clock.
    Facts,
}

/// A filing rule.
#[derive(Debug, PartialEq, Eq)]
pub struct Rule {
    pub id: RuleId,
    /// The template that the rule was made from.
    pub template: Option<String>,
    pub all_of: Vec<Cond>,
    pub target: Target,
}

/// The filing rules in order of precedence.
#[derive(Debug, PartialEq, Eq)]
pub struct RuleSet {
    /// New items are filed as they appear.
    pub keep_updated: bool,
    pub list: Vec<Rule>,
}

// ---- configuration ------------------------------------------------------------------------

/// Everything that is saved.
#[derive(Debug, PartialEq, Eq)]
pub struct Config {
    pub schema_version: u32,
    pub settings: Settings,
    /// The item table, by id.
    pub items: HashMap<ItemId, Item>,
    /// One layout per set of monitors.
    pub layouts: Vec<Layout>,
    pub rules: RuleSet,
    pub undo_log: Vec<Assignment>,
    pub snapshots: Vec<Snapshot>,
}

impl Default for Config {
    fn default() -> (r: Self)
        ensures
            r.schema_version == SCHEMA_VERSION,
            call_ensures(Settings::default, (), r.settings),
            r.items@ == Map::<ItemId, Item>::empty(),
            r.layouts@ == Seq::<Layout>::empty(),
            !r.rules.keep_updated,
            r.rules.list@ == Seq::<Rule>::empty(),
            r.undo_log@ == Seq::<Assignment>::empty(),
            r.snapshots@ == Seq::<Snapshot>::empty(),
    {
        Config {
            schema_version: SCHEMA_VERSION,
            settings: Settings::default(),
            items: HashMap::new(),
            layouts: Vec::new(),
            rules: RuleSet { keep_updated: false, list: Vec::new() },
            undo_log: Vec::new(),
            snapshots: Vec::new(),
        }
    }
}

} // verus!
