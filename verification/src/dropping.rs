//! Dragging over a window and dropping on it: what is meant by a point, what effect is reported,
//! and what a drop comes to.

use crate::commands::TransferMode;
use crate::model::{FenceId, ItemId, SortMode};
use crate::paths::{
    can_go_into, filter_folder_paths, going_into, paths_that_can_go_are_kept, DroppedPath,
};
use crate::tabs::contains_id;
use vstd::prelude::*;

verus! {

// ---- effects ------------------------------------------------------------------------------

/// What a drop does with what is dragged.
#[derive(Clone, Copy, Debug, PartialEq, Eq, Structural)]
pub enum DropEffect {
    Nothing,
    Copy,
    Move,
    Link,
}

/// The bit of an effect in a mask of effects.
pub open spec fn raw_of(e: DropEffect) -> u32 {
    match e {
        DropEffect::Nothing => 0,
        DropEffect::Copy => 1,
        DropEffect::Move => 2,
        DropEffect::Link => 4,
    }
}

impl DropEffect {
    /// The bit of the effect in a mask of effects.
    pub fn to_raw(self) -> (r: u32)
        ensures
            r == raw_of(self),
    {
        match self {
            DropEffect::Nothing => 0,
            DropEffect::Copy => 1,
            DropEffect::Move => 2,
            DropEffect::Link => 4,
        }
    }
}

/// How files are transferred for an effect.
pub open spec fn mode_of(e: DropEffect) -> Option<TransferMode> {
    match e {
        DropEffect::Nothing => None,
        DropEffect::Copy => Some(TransferMode::Copy),
        DropEffect::Move => Some(TransferMode::Move),
        DropEffect::Link => Some(TransferMode::Link),
    }
}

/// How files are transferred for an effect; none for no effect.
pub fn transfer_mode(effect: DropEffect) -> (r: Option<TransferMode>)
    ensures
        r == mode_of(effect),
{
    match effect {
        DropEffect::Nothing => None,
        DropEffect::Copy => Some(TransferMode::Copy),
        DropEffect::Move => Some(TransferMode::Move),
        DropEffect::Link => Some(TransferMode::Link),
    }
}

/// The effects that a source allows.
#[derive(Clone, Copy, Debug, PartialEq, Eq, Structural)]
pub struct Allowed {
    pub copy: bool,
    pub moving: bool,
    pub link: bool,
}

/// The source allows the effect.
pub open spec fn allows(a: Allowed, e: DropEffect) -> bool {
    match e {
        DropEffect::Nothing => false,
        DropEffect::Copy => a.copy,
        DropEffect::Move => a.moving,
        DropEffect::Link => a.link,
    }
}

impl Allowed {
    /// The effects of a mask.
    pub fn from_mask(mask: u32) -> (r: Self)
        ensures
            r.copy == (mask & 1 != 0),
            r.moving == (mask & 2 != 0),
            r.link == (mask & 4 != 0),
    {
        Allowed { copy: mask & 1 != 0, moving: mask & 2 != 0, link: mask & 4 != 0 }
    }

    pub fn has(&self, e: DropEffect) -> (r: bool)
        ensures
            r == allows(*self, e),
    {
        match e {
            DropEffect::Nothing => false,
            DropEffect::Copy => self.copy,
            DropEffect::Move => self.moving,
            DropEffect::Link => self.link,
        }
    }
}

/// A menu's choices: moving, copying, linking, in this order, as far as the target takes them and
/// the source allows them.
pub open spec fn choices_of(candidates: Seq<DropEffect>, a: Allowed) -> Seq<DropEffect> {
    let m = if candidates.contains(DropEffect::Move) && a.moving {
        seq![DropEffect::Move]
    } else {
        Seq::empty()
    };
    let c = if candidates.contains(DropEffect::Copy) && a.copy {
        m.push(DropEffect::Copy)
    } else {
        m
    };
    if candidates.contains(DropEffect::Link) && a.link {
        c.push(DropEffect::Link)
    } else {
        c
    }
}

fn effect_in(es: &Vec<DropEffect>, e: DropEffect) -> (r: bool)
    ensures
        r == es@.contains(e),
{
    let n: usize = es.len();
    for i in 0..n
        invariant
            n == es.len(),
            forall|j: int| 0 <= j < i ==> es@[j] != e,
    {
        if es[i] == e {
            return true;
        }
    }
    false
}

/// The choices of the menu that ends a drag with the right button.
pub fn right_drag_choices(candidates: &Vec<DropEffect>, allowed: Allowed) -> (r: Vec<DropEffect>)
    ensures
        r@ == choices_of(candidates@, allowed),
{
    let mut out: Vec<DropEffect> = Vec::new();
    if effect_in(candidates, DropEffect::Move) && allowed.moving {
        out.push(DropEffect::Move);
        assert(out@ =~= seq![DropEffect::Move]);
    }
    if effect_in(candidates, DropEffect::Copy) && allowed.copy {
        out.push(DropEffect::Copy);
    }
    if effect_in(candidates, DropEffect::Link) && allowed.link {
        out.push(DropEffect::Link);
    }
    out
}

/// The choice that the menu shows as its default: the effect of the keys where it is offered, else
/// the first one.
pub open spec fn default_of(choices: Seq<DropEffect>, wanted: DropEffect) -> DropEffect {
    if choices.len() == 0 {
        DropEffect::Nothing
    } else if choices.contains(wanted) {
        wanted
    } else {
        choices[0]
    }
}

/// The choice that the menu shows as its default; none without choices.
pub fn default_choice(choices: &Vec<DropEffect>, wanted: DropEffect) -> (r: DropEffect)
    ensures
        r == default_of(choices@, wanted),
{
    if choices.len() == 0 {
        DropEffect::Nothing
    } else if effect_in(choices, wanted) {
        wanted
    } else {
        choices[0]
    }
}

/// The menu offers only what the source allows, and its default is one of its choices.
pub proof fn menus_offer_what_is_allowed(candidates: Seq<DropEffect>, a: Allowed, wanted: DropEffect)
    ensures
        forall|i: int|
            0 <= i < choices_of(candidates, a).len() ==> allows(
                a,
                #[trigger] choices_of(candidates, a)[i],
            ) && candidates.contains(choices_of(candidates, a)[i]),
        choices_of(candidates, a).len() > 0 ==> choices_of(candidates, a).contains(
            default_of(choices_of(candidates, a), wanted),
        ),
{
    let cs = choices_of(candidates, a);
    if cs.len() > 0 {
        assert(cs.contains(cs[0]));
    }
}

/// The command of each entry of that menu.
pub const CMD_RDRAG_MOVE: u32 = 1;
pub const CMD_RDRAG_COPY: u32 = 2;
pub const CMD_RDRAG_LINK: u32 = 3;
pub const CMD_RDRAG_CANCEL: u32 = 4;

/// The command of an effect in the menu; leaving it does nothing.
pub open spec fn command_of(e: DropEffect) -> u32 {
    match e {
        DropEffect::Move => CMD_RDRAG_MOVE,
        DropEffect::Copy => CMD_RDRAG_COPY,
        DropEffect::Link => CMD_RDRAG_LINK,
        DropEffect::Nothing => CMD_RDRAG_CANCEL,
    }
}

/// The command of an effect in the menu.
pub fn menu_command(effect: DropEffect) -> (r: u32)
    ensures
        r == command_of(effect),
{
    match effect {
        DropEffect::Move => CMD_RDRAG_MOVE,
        DropEffect::Copy => CMD_RDRAG_COPY,
        DropEffect::Link => CMD_RDRAG_LINK,
        DropEffect::Nothing => CMD_RDRAG_CANCEL,
    }
}

/// The effect that a command of the menu chooses: none for any other number, as where the menu
/// was left.
pub fn menu_effect(command: u32) -> (r: DropEffect)
    ensures
        r != DropEffect::Nothing ==> command == command_of(r),
        r == DropEffect::Nothing <==> (command != CMD_RDRAG_MOVE && command != CMD_RDRAG_COPY
            && command != CMD_RDRAG_LINK),
{
    if command == CMD_RDRAG_MOVE {
        DropEffect::Move
    } else if command == CMD_RDRAG_COPY {
        DropEffect::Copy
    } else if command == CMD_RDRAG_LINK {
        DropEffect::Link
    } else {
        DropEffect::Nothing
    }
}

/// The effect on a folder, or on the window where there is none: the Recycle Bin only ever moves,
/// anywhere else the keys decide. `moved` and `by_keys` are those two effects as far as the source
/// allows them.
pub open spec fn effect_on(recycle_bin: bool, moved: DropEffect, by_keys: DropEffect) -> DropEffect {
    if recycle_bin {
        moved
    } else {
        by_keys
    }
}

/// The effect on a folder, or on the window where there is none.
pub fn folder_effect(recycle_bin: bool, moved: DropEffect, by_keys: DropEffect) -> (r: DropEffect)
    ensures
        r == effect_on(recycle_bin, moved, by_keys),
{
    if recycle_bin {
        moved
    } else {
        by_keys
    }
}

// ---- what is dragged ----------------------------------------------------------------------

/// What is dragged over a window.
#[derive(Clone, Copy, Debug, PartialEq, Eq, Structural)]
pub enum DropKind {
    Nothing,
    Files,
    /// A link of a browser.
    Url,
}

/// What is dragged over a window: nothing that a panel would take.
pub fn drop_kind(shows_panel: bool, files: bool, url: bool) -> (r: DropKind)
    ensures
        r == if shows_panel {
            DropKind::Nothing
        } else if files {
            DropKind::Files
        } else if url {
            DropKind::Url
        } else {
            DropKind::Nothing
        },
{
    if shows_panel {
        DropKind::Nothing
    } else if files {
        DropKind::Files
    } else if url {
        DropKind::Url
    } else {
        DropKind::Nothing
    }
}

/// A drag that began in one of the fences.
#[derive(Debug, PartialEq, Eq)]
pub struct InternalDrag {
    pub from: FenceId,
    pub items: Vec<ItemId>,
    pub paths: Vec<DroppedPath>,
}

/// A drag over a window, from its entering to its leaving or its drop.
pub struct DropSession {
    pub kind: DropKind,
    /// The drag is held with the right button.
    pub right: bool,
    /// The data of the drag are at hand.
    pub has_data: bool,
    /// The badge that was written last.
    pub badge: Option<(DropImage, String)>,
}

/// The badge is what was written last.
pub open spec fn same_badge(a: Option<(DropImage, String)>, b: (DropImage, String)) -> bool {
    a matches Some(x) && x.0 == b.0 && x.1@ == b.1@
}

impl DropSession {
    pub fn new() -> (r: Self)
        ensures
            r.kind == DropKind::Nothing && !r.right && !r.has_data && r.badge is None,
    {
        DropSession { kind: DropKind::Nothing, right: false, has_data: false, badge: None }
    }

    /// A drag comes in.
    pub fn enter(&mut self, kind: DropKind, right: bool)
        ensures
            *final(self) == (DropSession { kind, right, has_data: true, badge: None }),
    {
        *self = DropSession { kind, right, has_data: true, badge: None };
    }

    /// The drag moves on. Returns whether anything is shown for it.
    pub fn over(&mut self, right: bool) -> (r: bool)
        ensures
            r == (old(self).kind != DropKind::Nothing),
            *final(self) == if r {
                DropSession { right, ..*old(self) }
            } else {
                *old(self)
            },
    {
        if self.kind == DropKind::Nothing {
            return false;
        }
        self.right = right;
        true
    }

    /// Takes a badge. Returns whether it has to be written: it is not the one written last, and
    /// there are data to write it on.
    pub fn describe(&mut self, badge: (DropImage, String)) -> (r: bool)
        ensures
            r == (old(self).has_data && !same_badge(old(self).badge, badge)),
            *final(self) == if r {
                DropSession { badge: Some(badge), ..*old(self) }
            } else {
                *old(self)
            },
    {
        if !self.has_data {
            return false;
        }
        if let Some(last) = &self.badge {
            if last.0 == badge.0 && last.1 == badge.1 {
                return false;
            }
        }
        self.badge = Some(badge);
        true
    }

    /// The drag is over. Returns whether the badge has to be taken off the data.
    pub fn forget(&mut self, clear: bool) -> (r: bool)
        ensures
            r == (old(self).has_data && clear && old(self).badge is Some),
            *final(self) == (DropSession { has_data: false, badge: None, ..*old(self) }),
    {
        let r: bool = self.has_data && clear && self.badge.is_some();
        self.has_data = false;
        self.badge = None;
        r
    }

    /// The drag is dropped. Returns what was dropped, and whether the right button held it.
    pub fn finish(&mut self, right: bool) -> (r: (DropKind, bool))
        ensures
            r == (old(self).kind, old(self).right || right),
            *final(self) == (DropSession {
                kind: DropKind::Nothing,
                right: false,
                has_data: false,
                badge: None,
            }),
    {
        let r = (self.kind, self.right || right);
        *self = DropSession::new();
        r
    }
}

// ---- what is meant by a point -------------------------------------------------------------

/// What a point of a window means for a drag.
#[derive(Clone, Copy, Debug, PartialEq, Eq, Structural)]
pub struct DropSpot {
    /// The head of a tab.
    pub tab: Option<usize>,
    /// A folder among the items.
    pub folder: Option<usize>,
    /// Where the items would be put in their own fence.
    pub insert: Option<usize>,
    /// The items are where they came from, and cannot be put anywhere there.
    pub self_drop: bool,
}

pub open spec fn nowhere() -> DropSpot {
    DropSpot { tab: None, folder: None, insert: None, self_drop: false }
}

/// An item as a drag sees it.
#[derive(Clone, Copy, Debug, PartialEq, Eq, Structural)]
pub struct TargetItem {
    pub id: ItemId,
    /// Files can be dropped on it: it is a folder, or the Recycle Bin.
    pub takes_files: bool,
}

/// The item under the point, where files can be dropped on it and it is not dragged itself.
pub open spec fn folder_under(hit: Option<usize>, items: Seq<TargetItem>, dragged: Seq<ItemId>) -> Option<
    usize,
> {
    match hit {
        Some(i) if i < items.len() && items[i as int].takes_files && !dragged.contains(
            items[i as int].id,
        ) => Some(i),
        _ => None,
    }
}

/// The item under the point, where files can be dropped on it and it is not dragged itself.
pub fn folder_drop_target(hit: Option<usize>, items: &Vec<TargetItem>, dragged: &Vec<ItemId>) -> (r: Option<
    usize,
>)
    ensures
        r == folder_under(hit, items@, dragged@),
{
    match hit {
        Some(i) => if i < items.len() && items[i].takes_files && !contains_id(dragged, items[i].id) {
            Some(i)
        } else {
            None
        },
        None => None,
    }
}

/// Where items are put: only a fence in the user's own order takes them at a place, and only where
/// its items are. `index` is the place under the point.
pub fn insertion_at(
    rolled_up: bool,
    sort: SortMode,
    is_portal: bool,
    index: Option<usize>,
) -> (r: Option<usize>)
    ensures
        r == if rolled_up || sort != SortMode::Manual || is_portal {
            None
        } else {
            index
        },
{
    if rolled_up || sort != SortMode::Manual || is_portal {
        None
    } else {
        index
    }
}

/// What a point means: the head of a tab, where there are several, then a folder, then a place
/// among the items of the fence that they came from.
pub open spec fn spot_of(
    tabs: Seq<FenceId>,
    tab_hit: Option<usize>,
    folder: Option<usize>,
    insertion: Option<usize>,
    active: FenceId,
    from: Option<FenceId>,
) -> DropSpot {
    let tab = if tabs.len() > 1 {
        tab_hit
    } else {
        None
    };
    match tab {
        Some(i) => if from is Some && i < tabs.len() && Some(tabs[i as int]) == from {
            DropSpot { self_drop: true, ..nowhere() }
        } else {
            DropSpot { tab: Some(i), ..nowhere() }
        },
        None => if folder is Some {
            DropSpot { folder, ..nowhere() }
        } else if from == Some(active) {
            match insertion {
                Some(i) => DropSpot { insert: Some(i), ..nowhere() },
                None => DropSpot { self_drop: true, ..nowhere() },
            }
        } else {
            nowhere()
        },
    }
}

/// What a point means for a drag that came from the fence `from`, or from elsewhere.
pub fn drop_spot_at(
    tabs: &Vec<FenceId>,
    tab_hit: Option<usize>,
    folder: Option<usize>,
    insertion: Option<usize>,
    active: FenceId,
    from: Option<FenceId>,
) -> (r: DropSpot)
    ensures
        r == spot_of(tabs@, tab_hit, folder, insertion, active, from),
{
    let none = DropSpot { tab: None, folder: None, insert: None, self_drop: false };
    if tabs.len() > 1 {
        if let Some(i) = tab_hit {
            if let Some(f) = from {
                if i < tabs.len() && tabs[i] == f {
                    return DropSpot { self_drop: true, ..none };
                }
            }
            return DropSpot { tab: Some(i), ..none };
        }
    }
    if folder.is_some() {
        return DropSpot { folder, ..none };
    }
    let own: bool = match from {
        Some(f) => f == active,
        None => false,
    };
    if own {
        return match insertion {
            Some(i) => DropSpot { insert: Some(i), ..none },
            None => DropSpot { self_drop: true, ..none },
        };
    }
    none
}

/// A point means one thing at most.
pub proof fn a_point_means_one_thing(
    tabs: Seq<FenceId>,
    tab_hit: Option<usize>,
    folder: Option<usize>,
    insertion: Option<usize>,
    active: FenceId,
    from: Option<FenceId>,
)
    ensures
        ({
            let s = spot_of(tabs, tab_hit, folder, insertion, active, from);
            &&& s.tab is Some ==> s.folder is None && s.insert is None && !s.self_drop
            &&& s.folder is Some ==> s.tab is None && s.insert is None && !s.self_drop
            &&& s.insert is Some ==> s.tab is None && s.folder is None && !s.self_drop
            &&& s.insert is Some || s.self_drop ==> from is Some
        }),
{
}

// ---- while dragging -----------------------------------------------------------------------

/// The effect that is reported while something is dragged over a point. `link` is the effect of a
/// link, `by_keys` that of the keys on the folder under the point or on the window.
pub open spec fn effect_over(
    kind: DropKind,
    spot: DropSpot,
    internal: bool,
    link: DropEffect,
    by_keys: DropEffect,
) -> DropEffect {
    match kind {
        DropKind::Nothing => DropEffect::Nothing,
        DropKind::Url => link,
        DropKind::Files => if spot.self_drop {
            DropEffect::Nothing
        } else if internal && spot.folder is None {
            DropEffect::Move
        } else {
            by_keys
        },
    }
}

/// The effect that is reported while something is dragged over a point.
pub fn feedback_effect(
    kind: DropKind,
    spot: DropSpot,
    internal: bool,
    link: DropEffect,
    by_keys: DropEffect,
) -> (r: DropEffect)
    ensures
        r == effect_over(kind, spot, internal, link, by_keys),
{
    match kind {
        DropKind::Nothing => DropEffect::Nothing,
        DropKind::Url => link,
        DropKind::Files => if spot.self_drop {
            DropEffect::Nothing
        } else if internal && spot.folder.is_none() {
            DropEffect::Move
        } else {
            by_keys
        },
    }
}

/// What the badge of a drag names.
#[derive(Clone, Copy, Debug, PartialEq, Eq, Structural)]
pub enum BadgeName {
    Tab(usize),
    Item(usize),
    /// The tab in front, or the window's title where there is none.
    Front,
}

/// What the badge of a drag names: the tab or the folder under the point, else the fence shown.
pub fn badge_name(spot: DropSpot, tabs: usize, items: usize) -> (r: BadgeName)
    ensures
        r == match spot.tab {
            Some(i) if i < tabs => BadgeName::Tab(i),
            _ => match spot.folder {
                Some(i) if i < items => BadgeName::Item(i),
                _ => BadgeName::Front,
            },
        },
{
    if let Some(i) = spot.tab {
        if i < tabs {
            return BadgeName::Tab(i);
        }
    }
    if let Some(i) = spot.folder {
        if i < items {
            return BadgeName::Item(i);
        }
    }
    BadgeName::Front
}

/// The picture of a badge.
#[derive(Clone, Copy, Debug, PartialEq, Eq, Structural)]
pub enum DropImage {
    Invalid,
    Move,
    Copy,
    Link,
}

/// The badge for an effect: its picture, and the name it goes with; no name for no effect.
pub fn drop_description(effect: DropEffect, name: String) -> (r: (DropImage, String))
    ensures
        r.0 == match effect {
            DropEffect::Move => DropImage::Move,
            DropEffect::Copy => DropImage::Copy,
            DropEffect::Link => DropImage::Link,
            DropEffect::Nothing => DropImage::Invalid,
        },
        r.1@ == if effect == DropEffect::Nothing {
            Seq::<char>::empty()
        } else {
            name@
        },
{
    match effect {
        DropEffect::Move => (DropImage::Move, name),
        DropEffect::Copy => (DropImage::Copy, name),
        DropEffect::Link => (DropImage::Link, name),
        DropEffect::Nothing => {
            proof {
                reveal_strlit("");
            }
            let none = String::new();
            assert(none@ =~= Seq::<char>::empty());
            (DropImage::Invalid, none)
        },
    }
}

/// What a window shows of a drag.
#[derive(Clone, Copy, Debug, PartialEq, Eq, Structural)]
pub struct DropLights {
    pub tab: Option<usize>,
    pub folder: Option<usize>,
    pub insert: Option<usize>,
    /// The whole window is lit.
    pub wash: bool,
    /// The place where the caret is, or was last.
    pub caret: Option<usize>,
    /// The window's own selection is greyed out.
    pub inactive: bool,
}

/// The lights for what a point means; none once the drag is gone.
pub open spec fn lights_for(was: DropLights, spot: Option<DropSpot>, own_drag: bool) -> DropLights {
    match spot {
        Some(s) => {
            let wash = s.tab is None && s.folder is None && s.insert is None && !s.self_drop;
            DropLights {
                tab: s.tab,
                folder: s.folder,
                insert: s.insert,
                wash,
                caret: if s.insert is Some {
                    s.insert
                } else {
                    was.caret
                },
                inactive: !own_drag && (wash || s.folder is Some || s.insert is Some || s.tab
                    is Some),
            }
        },
        None => DropLights {
            tab: None,
            folder: None,
            insert: None,
            wash: false,
            caret: was.caret,
            inactive: false,
        },
    }
}

/// What has to be drawn anew, and which of the fades begin.
#[derive(Clone, Copy, Debug, PartialEq, Eq, Structural)]
pub struct LightChange {
    pub content: bool,
    pub chrome: bool,
    pub wash: bool,
    pub caret: bool,
    pub inactive: bool,
}

impl DropLights {
    /// Sets the lights for what a point means. Returns what changed.
    pub fn set(&mut self, spot: Option<DropSpot>, own_drag: bool) -> (r: LightChange)
        ensures
            *final(self) == lights_for(*old(self), spot, own_drag),
            r == (LightChange {
                content: final(self).folder != old(self).folder || final(self).insert != old(
                    self,
                ).insert || final(self).wash != old(self).wash,
                chrome: final(self).tab != old(self).tab,
                wash: final(self).wash != old(self).wash,
                caret: (final(self).insert is Some) != (old(self).insert is Some),
                inactive: final(self).inactive != old(self).inactive,
            }),
    {
        let was = *self;
        let next = match spot {
            Some(s) => {
                let wash = s.tab.is_none() && s.folder.is_none() && s.insert.is_none()
                    && !s.self_drop;
                DropLights {
                    tab: s.tab,
                    folder: s.folder,
                    insert: s.insert,
                    wash,
                    caret: if s.insert.is_some() {
                        s.insert
                    } else {
                        was.caret
                    },
                    inactive: !own_drag && (wash || s.folder.is_some() || s.insert.is_some()
                        || s.tab.is_some()),
                }
            },
            None => DropLights {
                tab: None,
                folder: None,
                insert: None,
                wash: false,
                caret: was.caret,
                inactive: false,
            },
        };
        *self = next;
        LightChange {
            content: next.folder != was.folder || next.insert != was.insert || next.wash
                != was.wash,
            chrome: next.tab != was.tab,
            wash: next.wash != was.wash,
            caret: next.insert.is_some() != was.insert.is_some(),
            inactive: next.inactive != was.inactive,
        }
    }
}

/// Whether a drag that rests over a rolled-up window begins to unroll it.
pub fn arms_dwell(rolled_up: bool, peeking: bool, rolling: bool, hover_peek: bool, armed: bool) -> (r: bool)
    ensures
        r == (rolled_up && !peeking && !rolling && hover_peek && !armed),
{
    rolled_up && !peeking && !rolling && hover_peek && !armed
}

/// How evenly a drag was answered, in nanoseconds.
#[derive(Clone, Copy, Debug, PartialEq, Eq, Structural)]
pub struct OverStats {
    pub calls: u32,
    pub last: Option<u64>,
    pub max_gap: u64,
    pub max_handler: u64,
}

/// The longest gap between two answers that is not seen: 100 ms, in nanoseconds.
pub const SEEN_GAP: u64 = 100_000_000;

/// The longest answer that is not seen: 7 ms, in nanoseconds.
pub const SEEN_HANDLER: u64 = 7_000_000;

/// What the answers to a drag were like.
#[derive(Clone, Copy, Debug, PartialEq, Eq, Structural)]
pub enum Cadence {
    /// There were none.
    Idle,
    Even,
    Stuttered,
}

pub open spec fn max_of(a: u64, b: int) -> int {
    if a as int >= b {
        a as int
    } else {
        b
    }
}

impl OverStats {
    pub fn new() -> (r: Self)
        ensures
            r == (OverStats { calls: 0, last: None, max_gap: 0, max_handler: 0 }),
    {
        OverStats { calls: 0, last: None, max_gap: 0, max_handler: 0 }
    }

    /// An answer begins.
    pub fn begin(&mut self, now: u64)
        requires
            old(self).calls < u32::MAX,
            old(self).last matches Some(t) ==> t <= now,
        ensures
            final(self).calls == old(self).calls + 1,
            final(self).last == Some(now),
            final(self).max_gap == match old(self).last {
                Some(t) => max_of(old(self).max_gap, now - t),
                None => old(self).max_gap as int,
            },
            final(self).max_handler == old(self).max_handler,
    {
        if let Some(t) = self.last {
            if now - t > self.max_gap {
                self.max_gap = now - t;
            }
        }
        self.last = Some(now);
        self.calls = self.calls + 1;
    }

    /// The answer ends.
    pub fn end(&mut self, started: u64, now: u64)
        requires
            started <= now,
        ensures
            *final(self) == (OverStats {
                max_handler: max_of(old(self).max_handler, now - started) as u64,
                ..*old(self)
            }),
    {
        if now - started > self.max_handler {
            self.max_handler = now - started;
        }
    }

    /// Says what the answers were like, and begins anew.
    pub fn report(&mut self) -> (r: Cadence)
        ensures
            r == if old(self).calls == 0 {
                Cadence::Idle
            } else if old(self).max_gap > SEEN_GAP || old(self).max_handler > SEEN_HANDLER {
                Cadence::Stuttered
            } else {
                Cadence::Even
            },
            *final(self) == (OverStats { calls: 0, last: None, max_gap: 0, max_handler: 0 }),
    {
        let r = if self.calls == 0 {
            Cadence::Idle
        } else if self.max_gap > SEEN_GAP || self.max_handler > SEEN_HANDLER {
            Cadence::Stuttered
        } else {
            Cadence::Even
        };
        *self = OverStats::new();
        r
    }
}

// ---- dropping -----------------------------------------------------------------------------

/// What was dropped, and where.
pub struct Dropped {
    pub kind: DropKind,
    pub spot: DropSpot,
    /// The fence shown.
    pub active: FenceId,
    /// The fence of the tab under the point.
    pub tab_fence: Option<FenceId>,
    /// The folder under the point.
    pub folder: Option<String>,
    /// The folder under the point is the Recycle Bin.
    pub recycle_bin: bool,
    /// The drag began in one of the fences.
    pub internal: Option<InternalDrag>,
    /// The files of a drag from elsewhere.
    pub paths: Vec<DroppedPath>,
    /// There is a link.
    pub has_url: bool,
    pub allowed: Allowed,
    /// The effect of a link.
    pub link: DropEffect,
    /// The effect of moving.
    pub moved: DropEffect,
    /// The effect of the keys.
    pub by_keys: DropEffect,
    /// The drag was held with the right button.
    pub right: bool,
}

/// What a drop asks for.
pub enum DropAction {
    Nothing,
    /// Make a shortcut to the link in the fence.
    Link { to: FenceId },
    IntoFolder { paths: Vec<DroppedPath>, folder: String, fence: FenceId },
    Reorder { fence: FenceId, items: Vec<ItemId>, index: usize },
    MoveItems { items: Vec<ItemId>, to: FenceId },
    Files { paths: Vec<DroppedPath>, to: FenceId },
}

/// The model of a [`DropAction`].
#[verifier::ext_equal]
pub enum DropModel {
    Nothing,
    Link { to: FenceId },
    IntoFolder { paths: Seq<DroppedPath>, folder: Seq<char>, fence: FenceId },
    Reorder { fence: FenceId, items: Seq<ItemId>, index: usize },
    MoveItems { items: Seq<ItemId>, to: FenceId },
    Files { paths: Seq<DroppedPath>, to: FenceId },
}

impl View for DropAction {
    type V = DropModel;

    open spec fn view(&self) -> DropModel {
        match self {
            DropAction::Nothing => DropModel::Nothing,
            DropAction::Link { to } => DropModel::Link { to: *to },
            DropAction::IntoFolder { paths, folder, fence } => DropModel::IntoFolder {
                paths: paths@,
                folder: folder@,
                fence: *fence,
            },
            DropAction::Reorder { fence, items, index } => DropModel::Reorder {
                fence: *fence,
                items: items@,
                index: *index,
            },
            DropAction::MoveItems { items, to } => DropModel::MoveItems {
                items: items@,
                to: *to,
            },
            DropAction::Files { paths, to } => DropModel::Files { paths: paths@, to: *to },
        }
    }
}

/// What a drop comes to: an action with its effect, where the menu of the right button first asks
/// for the effect when `choices` are given.
pub struct DropPlan {
    pub action: DropAction,
    pub effect: DropEffect,
    /// The choices of the menu; none where no menu is shown.
    pub choices: Option<Vec<DropEffect>>,
}

/// The model of a [`DropPlan`].
pub struct PlanModel {
    pub action: DropModel,
    pub effect: DropEffect,
    pub choices: Option<Seq<DropEffect>>,
}

impl View for DropPlan {
    type V = PlanModel;

    open spec fn view(&self) -> PlanModel {
        PlanModel {
            action: self.action@,
            effect: self.effect,
            choices: match self.choices {
                Some(c) => Some(c@),
                None => None,
            },
        }
    }
}

pub open spec fn no_drop() -> PlanModel {
    PlanModel { action: DropModel::Nothing, effect: DropEffect::Nothing, choices: None }
}

/// The fence that a drop goes to: that of the tab under the point, else the one shown.
pub open spec fn goal(d: Dropped) -> FenceId {
    match d.tab_fence {
        Some(f) => f,
        None => d.active,
    }
}

/// The effect of a drop of files.
pub open spec fn files_effect(d: Dropped) -> DropEffect {
    effect_on(d.folder is Some && d.recycle_bin, d.moved, d.by_keys)
}

/// What the target takes: the Recycle Bin only moves.
pub open spec fn candidates_of(d: Dropped) -> Seq<DropEffect> {
    if d.folder is Some && d.recycle_bin {
        seq![DropEffect::Move]
    } else {
        seq![DropEffect::Move, DropEffect::Copy, DropEffect::Link]
    }
}

/// What a drop of items of a fence comes to.
pub open spec fn internal_plan(d: Dropped, drag: InternalDrag) -> PlanModel {
    if d.spot.self_drop {
        no_drop()
    } else {
        match d.folder {
            Some(folder) => {
                let paths = going_into(drag.paths@, folder@);
                if files_effect(d) == DropEffect::Nothing || paths.len() == 0 {
                    no_drop()
                } else {
                    PlanModel {
                        action: DropModel::IntoFolder { paths, folder: folder@, fence: d.active },
                        effect: files_effect(d),
                        choices: None,
                    }
                }
            },
            None => match d.spot.insert {
                Some(index) => PlanModel {
                    action: DropModel::Reorder { fence: d.active, items: drag.items@, index },
                    effect: DropEffect::Move,
                    choices: None,
                },
                None => if goal(d) == drag.from {
                    no_drop()
                } else {
                    PlanModel {
                        action: DropModel::MoveItems { items: drag.items@, to: goal(d) },
                        effect: DropEffect::Move,
                        choices: None,
                    }
                },
            },
        }
    }
}

/// What a drop of files from elsewhere comes to.
pub open spec fn files_plan(d: Dropped) -> PlanModel {
    let choices = if d.right {
        Some(choices_of(candidates_of(d), d.allowed))
    } else {
        None
    };
    if d.paths.len() == 0 || files_effect(d) == DropEffect::Nothing {
        no_drop()
    } else {
        match d.folder {
            Some(folder) => {
                let paths = going_into(d.paths@, folder@);
                if paths.len() == 0 {
                    no_drop()
                } else {
                    PlanModel {
                        action: DropModel::IntoFolder { paths, folder: folder@, fence: d.active },
                        effect: files_effect(d),
                        choices,
                    }
                }
            },
            None => PlanModel {
                action: DropModel::Files { paths: d.paths@, to: goal(d) },
                effect: files_effect(d),
                choices,
            },
        }
    }
}

/// What a drop comes to.
pub open spec fn plan_of(d: Dropped) -> PlanModel {
    match d.kind {
        DropKind::Nothing => no_drop(),
        DropKind::Url => if !d.has_url || d.link == DropEffect::Nothing {
            no_drop()
        } else {
            PlanModel {
                action: DropModel::Link { to: goal(d) },
                effect: d.link,
                choices: if d.right {
                    Some(seq![d.link])
                } else {
                    None
                },
            }
        },
        DropKind::Files => match d.internal {
            Some(drag) => internal_plan(d, drag),
            None => files_plan(d),
        },
    }
}

fn nothing() -> (r: DropPlan)
    ensures
        r@ == no_drop(),
{
    DropPlan { action: DropAction::Nothing, effect: DropEffect::Nothing, choices: None }
}

fn plan_internal(d: Dropped, drag: InternalDrag) -> (r: DropPlan)
    ensures
        r@ == internal_plan(d, drag),
{
    if d.spot.self_drop {
        return nothing();
    }
    let effect = folder_effect(d.folder.is_some() && d.recycle_bin, d.moved, d.by_keys);
    let to: FenceId = match d.tab_fence {
        Some(f) => f,
        None => d.active,
    };
    match d.folder {
        Some(folder) => {
            let paths = filter_folder_paths(&drag.paths, folder.as_str());
            if effect == DropEffect::Nothing || paths.len() == 0 {
                return nothing();
            }
            DropPlan {
                action: DropAction::IntoFolder { paths, folder, fence: d.active },
                effect,
                choices: None,
            }
        },
        None => match d.spot.insert {
            Some(index) => DropPlan {
                action: DropAction::Reorder { fence: d.active, items: drag.items, index },
                effect: DropEffect::Move,
                choices: None,
            },
            None => if to == drag.from {
                nothing()
            } else {
                DropPlan {
                    action: DropAction::MoveItems { items: drag.items, to },
                    effect: DropEffect::Move,
                    choices: None,
                }
            },
        },
    }
}

fn menu_choices(d: &Dropped) -> (r: Option<Vec<DropEffect>>)
    ensures
        match r {
            Some(c) => d.right && c@ == choices_of(candidates_of(*d), d.allowed),
            None => !d.right,
        },
{
    if !d.right {
        return None;
    }
    let candidates: Vec<DropEffect> = if d.folder.is_some() && d.recycle_bin {
        vec![DropEffect::Move]
    } else {
        vec![DropEffect::Move, DropEffect::Copy, DropEffect::Link]
    };
    assert(candidates@ =~= candidates_of(*d));
    Some(right_drag_choices(&candidates, d.allowed))
}

fn plan_files(d: Dropped) -> (r: DropPlan)
    ensures
        r@ == files_plan(d),
{
    let effect = folder_effect(d.folder.is_some() && d.recycle_bin, d.moved, d.by_keys);
    if d.paths.len() == 0 || effect == DropEffect::Nothing {
        return nothing();
    }
    let choices = menu_choices(&d);
    let to: FenceId = match d.tab_fence {
        Some(f) => f,
        None => d.active,
    };
    match d.folder {
        Some(folder) => {
            let paths = filter_folder_paths(&d.paths, folder.as_str());
            if paths.len() == 0 {
                return nothing();
            }
            DropPlan {
                action: DropAction::IntoFolder { paths, folder, fence: d.active },
                effect,
                choices,
            }
        },
        None => DropPlan {
            action: DropAction::Files { paths: d.paths, to },
            effect,
            choices,
        },
    }
}

/// What a drop comes to.
pub fn plan_drop(d: Dropped) -> (r: DropPlan)
    ensures
        r@ == plan_of(d),
{
    match d.kind {
        DropKind::Nothing => nothing(),
        DropKind::Url => {
            if !d.has_url || d.link == DropEffect::Nothing {
                return nothing();
            }
            let to: FenceId = match d.tab_fence {
                Some(f) => f,
                None => d.active,
            };
            let choices: Option<Vec<DropEffect>> = if d.right {
                let c = vec![d.link];
                assert(c@ =~= seq![d.link]);
                Some(c)
            } else {
                None
            };
            DropPlan { action: DropAction::Link { to }, effect: d.link, choices }
        },
        DropKind::Files => {
            let mut d = d;
            let mut internal: Option<InternalDrag> = None;
            std::mem::swap(&mut internal, &mut d.internal);
            match internal {
                Some(drag) => plan_internal(d, drag),
                None => plan_files(d),
            }
        },
    }
}

/// What is done once the menu was answered: nothing where it was left without a choice.
pub fn after_menu(plan: DropPlan, chosen: DropEffect) -> (r: DropPlan)
    ensures
        r@ == if chosen == DropEffect::Nothing {
            no_drop()
        } else {
            PlanModel { effect: chosen, choices: None, ..plan@ }
        },
{
    if chosen == DropEffect::Nothing {
        nothing()
    } else {
        DropPlan { action: plan.action, effect: chosen, choices: None }
    }
}

/// A drop has an effect exactly where it asks for something, and items that are dropped where they
/// came from stay.
pub proof fn effects_tell_the_truth(d: Dropped)
    ensures
        (plan_of(d).effect != DropEffect::Nothing) == !(plan_of(d).action is Nothing),
        d.kind == DropKind::Files && d.internal is Some && d.spot.self_drop ==> plan_of(d)
            == no_drop(),
{
}

/// Items that are dragged from one fence onto another one, its body or the head of its tab, all
/// move to it; onto the one that they came from, nothing happens.
pub proof fn items_move_between_fences(d: Dropped, drag: InternalDrag)
    requires
        d.kind == DropKind::Files,
        d.internal == Some(drag),
        !d.spot.self_drop,
        d.folder is None,
        d.spot.insert is None,
    ensures
        ({
            let to = if d.tab_fence is Some {
                d.tab_fence->0
            } else {
                d.active
            };
            let plan = plan_of(d);
            &&& plan.action is MoveItems <==> to != drag.from
            &&& to != drag.from ==> plan.action == (DropModel::MoveItems { items: drag.items@, to })
                && plan.effect == DropEffect::Move
            &&& to == drag.from ==> plan.action is Nothing && plan.effect == DropEffect::Nothing
            &&& plan.choices is None
        }),
{
}

/// Items that are dropped at a place of their own fence are put there, in that fence.
pub proof fn items_are_put_in_place(d: Dropped, drag: InternalDrag)
    requires
        d.kind == DropKind::Files,
        d.internal == Some(drag),
        !d.spot.self_drop,
        d.folder is None,
        d.spot.insert is Some,
    ensures
        plan_of(d).action == (DropModel::Reorder {
            fence: d.active,
            items: drag.items@,
            index: d.spot.insert->0,
        }),
        plan_of(d).effect == DropEffect::Move,
{
}

/// What is dropped onto a folder goes into it, as far as it can, by the effect of the keys; the
/// Recycle Bin only moves. Where nothing can go, or the effect is none, nothing happens.
pub proof fn folders_take_what_can_go(d: Dropped, folder: String)
    requires
        d.kind == DropKind::Files,
        d.folder == Some(folder),
        d.internal is Some ==> !d.spot.self_drop,
    ensures
        ({
            let all = if d.internal is Some {
                d.internal->0.paths@
            } else {
                d.paths@
            };
            let can = all.filter(|p: DroppedPath| can_go_into(p, folder@));
            let effect = if d.recycle_bin {
                d.moved
            } else {
                d.by_keys
            };
            let plan = plan_of(d);
            &&& plan.action is Nothing <==> can.len() == 0 || effect == DropEffect::Nothing
            &&& !(plan.action is Nothing) ==> plan.action == (DropModel::IntoFolder {
                paths: can,
                folder: folder@,
                fence: d.active,
            }) && plan.effect == effect
        }),
{
    paths_that_can_go_are_kept(
        if d.internal is Some {
            d.internal->0.paths@
        } else {
            d.paths@
        },
        folder@,
    );
    if d.internal is None && d.paths.len() == 0 {
        reveal(Seq::filter);
    }
}

/// Files from elsewhere that are dropped on a fence go to it, or to that of the tab under the
/// point, all of them, by the effect of the keys.
pub proof fn files_go_to_the_fence_under_the_point(d: Dropped)
    requires
        d.kind == DropKind::Files,
        d.internal is None,
        d.folder is None,
    ensures
        ({
            let to = if d.tab_fence is Some {
                d.tab_fence->0
            } else {
                d.active
            };
            let plan = plan_of(d);
            &&& plan.action is Nothing <==> d.paths.len() == 0 || d.by_keys == DropEffect::Nothing
            &&& !(plan.action is Nothing) ==> plan.action == (DropModel::Files {
                paths: d.paths@,
                to,
            }) && plan.effect == d.by_keys
        }),
{
}

/// A link becomes a shortcut in the fence under the point, where there is one and it may.
pub proof fn links_become_shortcuts(d: Dropped)
    requires
        d.kind == DropKind::Url,
    ensures
        ({
            let to = if d.tab_fence is Some {
                d.tab_fence->0
            } else {
                d.active
            };
            let plan = plan_of(d);
            &&& plan.action is Nothing <==> !d.has_url || d.link == DropEffect::Nothing
            &&& !(plan.action is Nothing) ==> plan.action == (DropModel::Link { to }) && plan.effect
                == d.link
        }),
{
}

/// A menu is asked for exactly where something from elsewhere was held with the right button, and
/// it offers what the target takes and the source allows; the Recycle Bin takes moving only.
pub proof fn the_right_button_asks(d: Dropped, e: DropEffect)
    requires
        !(plan_of(d).action is Nothing),
    ensures
        plan_of(d).choices is Some <==> d.right && (d.kind == DropKind::Url || d.internal is None),
        plan_of(d).choices is Some && d.kind == DropKind::Files ==> (plan_of(d).choices->0.contains(e)
            <==> allows(d.allowed, e) && (d.folder is Some && d.recycle_bin ==> e
            == DropEffect::Move)),
{
    if d.kind == DropKind::Files && d.internal is None && d.right {
        lemma_choices(candidates_of(d), d.allowed, e);
        let cs = candidates_of(d);
        assert(cs.contains(DropEffect::Move)) by {
            assert(cs[0] == DropEffect::Move);
        }
        if !(d.folder is Some && d.recycle_bin) {
            assert(cs[1] == DropEffect::Copy && cs[2] == DropEffect::Link);
        }
    }
}

proof fn lemma_choices(candidates: Seq<DropEffect>, a: Allowed, e: DropEffect)
    ensures
        choices_of(candidates, a).contains(e) <==> candidates.contains(e) && allows(a, e),
{
    let out = choices_of(candidates, a);
    let m = if candidates.contains(DropEffect::Move) && a.moving {
        seq![DropEffect::Move]
    } else {
        Seq::empty()
    };
    let c = if candidates.contains(DropEffect::Copy) && a.copy {
        m.push(DropEffect::Copy)
    } else {
        m
    };
    assert(m.contains(e) <==> candidates.contains(e) && a.moving && e == DropEffect::Move) by {
        if candidates.contains(DropEffect::Move) && a.moving {
            assert(m[0] == DropEffect::Move);
        }
    }
    assert(c.contains(e) <==> m.contains(e) || candidates.contains(e) && a.copy && e
        == DropEffect::Copy) by {
        if m.contains(e) {
            assert(c[m.index_of(e)] == e);
        }
        if candidates.contains(DropEffect::Copy) && a.copy {
            assert(c[m.len() as int] == DropEffect::Copy);
        }
        if c.contains(e) && e != DropEffect::Copy {
            assert(m[c.index_of(e)] == e);
        }
    }
    if c.contains(e) {
        assert(out[c.index_of(e)] == e);
    }
    if candidates.contains(DropEffect::Link) && a.link {
        assert(out[c.len() as int] == DropEffect::Link);
    }
    if out.contains(e) && e != DropEffect::Link {
        assert(c[out.index_of(e)] == e);
    }
}

/// What a point means: with several tabs, the head of one, unless it is the one that the items
/// came from; else a folder; else, in the fence that the items came from, a place among them.
pub proof fn points_mean_what_is_under_them(
    tabs: Seq<FenceId>,
    tab_hit: Option<usize>,
    folder: Option<usize>,
    insertion: Option<usize>,
    active: FenceId,
    from: Option<FenceId>,
)
    ensures
        ({
            let s = spot_of(tabs, tab_hit, folder, insertion, active, from);
            let on_tab = tabs.len() > 1 && tab_hit is Some;
            let own_tab = on_tab && tab_hit->0 < tabs.len() && from == Some(
                tabs[tab_hit->0 as int],
            );
            &&& s.tab == if on_tab && !own_tab {
                tab_hit
            } else {
                None
            }
            &&& s.folder == if on_tab {
                None
            } else {
                folder
            }
            &&& s.insert is Some <==> !on_tab && folder is None && from == Some(active)
                && insertion is Some
            &&& s.insert is Some ==> s.insert == insertion
            &&& s.self_drop <==> own_tab || (!on_tab && folder is None && from == Some(active)
                && insertion is None)
        }),
{
}

/// While files are dragged, no effect is shown where they came from, moving between fences is, and
/// elsewhere that of the keys; a link shows its own.
pub proof fn the_effect_shown_is_the_one_to_come(
    kind: DropKind,
    spot: DropSpot,
    internal: bool,
    link: DropEffect,
    by_keys: DropEffect,
)
    ensures
        ({
            let e = effect_over(kind, spot, internal, link, by_keys);
            &&& kind == DropKind::Nothing ==> e == DropEffect::Nothing
            &&& kind == DropKind::Url ==> e == link
            &&& kind == DropKind::Files && spot.self_drop ==> e == DropEffect::Nothing
            &&& kind == DropKind::Files && !spot.self_drop && internal && spot.folder is None ==> e
                == DropEffect::Move
            &&& kind == DropKind::Files && !spot.self_drop && !(internal && spot.folder is None)
                ==> e == by_keys
        }),
{
}

// ---- the picture of a drag ----------------------------------------------------------------

/// The largest side of a drag's picture, in pixels.
pub const PICTURE_MAX: u32 = 4096;

/// Where in the picture the press was, where the picture is not too large and the press lies in
/// it; then the picture lifts off from the items' own places.
pub fn picture_offset(press: (i32, i32), origin: (i32, i32), w: u32, h: u32) -> (r: Option<
    (i32, i32),
>)
    ensures
        r == if 0 < w <= PICTURE_MAX && 0 < h <= PICTURE_MAX && origin.0 <= press.0 < origin.0 + w
            && origin.1 <= press.1 < origin.1 + h {
            Some(((press.0 - origin.0) as i32, (press.1 - origin.1) as i32))
        } else {
            None
        },
{
    if w == 0 || h == 0 || w > PICTURE_MAX || h > PICTURE_MAX {
        return None;
    }
    let dx: i64 = press.0 as i64 - origin.0 as i64;
    let dy: i64 = press.1 as i64 - origin.1 as i64;
    if dx < 0 || dx >= w as i64 || dy < 0 || dy >= h as i64 {
        return None;
    }
    Some((dx as i32, dy as i32))
}

/// The selected items that are in sight, in rising order.
pub open spec fn dragged(selected: Seq<usize>, in_sight: Seq<bool>, n: int) -> Seq<int>
    decreases n,
{
    if n <= 0 {
        Seq::empty()
    } else if in_sight[n - 1] && selected.contains((n - 1) as usize) {
        dragged(selected, in_sight, n - 1).push(n - 1)
    } else {
        dragged(selected, in_sight, n - 1)
    }
}

fn index_in(list: &Vec<usize>, k: usize) -> (r: bool)
    ensures
        r == list@.contains(k),
{
    let n: usize = list.len();
    for i in 0..n
        invariant
            n == list.len(),
            forall|j: int| 0 <= j < i ==> list@[j] != k,
    {
        if list[i] == k {
            return true;
        }
    }
    false
}

/// The items in the picture of a drag: those that are selected and in sight, in rising order. None
/// where there are none or too many of them, or the window is rolled up.
pub fn pictured_items(rolled_up: bool, selected: &Vec<usize>, in_sight: &Vec<bool>, max: usize) -> (r: Option<
    Vec<usize>,
>)
    ensures
        ({
            let all = dragged(selected@, in_sight@, in_sight.len() as int);
            match r {
                Some(v) => !rolled_up && 0 < all.len() <= max && v.len() == all.len() && forall|
                    i: int,
                | 0 <= i < v.len() ==> #[trigger] v@[i] == all[i],
                None => rolled_up || all.len() == 0 || all.len() > max,
            }
        }),
{
    if rolled_up {
        return None;
    }
    let mut out: Vec<usize> = Vec::new();
    let n: usize = in_sight.len();
    for i in 0..n
        invariant
            n == in_sight.len(),
            out.len() == dragged(selected@, in_sight@, i as int).len(),
            forall|j: int|
                0 <= j < out.len() ==> #[trigger] out@[j] == dragged(
                    selected@,
                    in_sight@,
                    i as int,
                )[j],
    {
        if in_sight[i] && index_in(selected, i) {
            out.push(i);
        }
    }
    if out.len() == 0 || out.len() > max {
        None
    } else {
        Some(out)
    }
}

// ---- menus and marks --------------------------------------------------------------------------

/// The menu of a drop offers to move, to copy and to link, in that order, as far as each makes
/// sense and is allowed.
pub proof fn the_menu_has_a_fixed_order(candidates: Seq<DropEffect>, a: Allowed, wanted: DropEffect)
    ensures
        choices_of(candidates, a).contains(DropEffect::Move) <==> candidates.contains(DropEffect::Move)
            && a.moving,
        choices_of(candidates, a).contains(DropEffect::Copy) <==> candidates.contains(DropEffect::Copy)
            && a.copy,
        choices_of(candidates, a).contains(DropEffect::Link) <==> candidates.contains(DropEffect::Link)
            && a.link,
        !choices_of(candidates, a).contains(DropEffect::Nothing),
        candidates.contains(DropEffect::Move) && a.moving ==> choices_of(candidates, a)[0] is Move,
        candidates.contains(DropEffect::Link) && a.link ==> choices_of(candidates, a).last() is Link,
        choices_of(candidates, a).contains(wanted) ==> default_of(choices_of(candidates, a), wanted)
            == wanted,
        choices_of(candidates, a).len() == 0 ==> default_of(choices_of(candidates, a), wanted)
            is Nothing,
        choices_of(candidates, a).len() > 0 && !choices_of(candidates, a).contains(wanted)
            ==> default_of(choices_of(candidates, a), wanted) == choices_of(candidates, a)[0],
{
    let cs = choices_of(candidates, a);
    assert(cs.len() <= 3);
    assert(cs.len() > 0 ==> cs.contains(cs[0]));
    assert(cs.len() > 1 ==> cs.contains(cs[1]));
    assert(cs.len() > 2 ==> cs.contains(cs[2]));
}

/// Effects are told by their numbers, and each but nothing is done as what it says.
pub proof fn effects_are_done_as_they_say(e: DropEffect, recycle_bin: bool, moved: DropEffect)
    ensures
        e is Nothing <==> raw_of(e) == 0,
        e is Copy <==> raw_of(e) == 1,
        e is Move <==> raw_of(e) == 2,
        e is Link <==> raw_of(e) == 4,
        e is Copy <==> mode_of(e) == Some(TransferMode::Copy),
        e is Move <==> mode_of(e) == Some(TransferMode::Move),
        e is Link <==> mode_of(e) == Some(TransferMode::Link),
        e is Nothing <==> mode_of(e) is None,
        e is Move <==> command_of(e) == 1,
        e is Copy <==> command_of(e) == 2,
        e is Link <==> command_of(e) == 3,
        e is Nothing <==> command_of(e) == 4,
        effect_on(true, moved, e) == moved,
        effect_on(false, moved, e) == e,
{
}

/// Files can be dropped on a folder, or on the recycle bin, that is not itself dragged.
pub proof fn dragged_folders_take_nothing(
    hit: usize,
    items: Seq<TargetItem>,
    dragged_ids: Seq<ItemId>,
)
    ensures
        folder_under(None, items, dragged_ids) is None,
        hit >= items.len() ==> folder_under(Some(hit), items, dragged_ids) is None,
        hit < items.len() ==> (folder_under(Some(hit), items, dragged_ids) is Some
            <==> items[hit as int].takes_files && !dragged_ids.contains(items[hit as int].id)),
        folder_under(Some(hit), items, dragged_ids) is Some ==> folder_under(
            Some(hit),
            items,
            dragged_ids,
        ) == Some(hit),
{
}

/// What would take a drop is lit: a tab, a folder, the place in the fence, or else the whole
/// window; nothing is where the drag left or the items would stay where they are.
pub proof fn what_takes_a_drop_is_lit(was: DropLights, s: DropSpot, own_drag: bool)
    ensures
        ({
            let l = lights_for(was, Some(s), own_drag);
            &&& l.tab == s.tab && l.folder == s.folder && l.insert == s.insert
            &&& l.wash <==> s.tab is None && s.folder is None && s.insert is None && !s.self_drop
            &&& s.insert is Some ==> l.caret == s.insert
            &&& s.insert is None ==> l.caret == was.caret
            &&& own_drag ==> !l.inactive
            &&& !own_drag ==> (l.inactive <==> l.wash || l.tab is Some || l.folder is Some
                || l.insert is Some)
        }),
        ({
            let l = lights_for(was, None, own_drag);
            &&& l.tab is None && l.folder is None && l.insert is None && !l.wash && !l.inactive
            &&& l.caret == was.caret
        }),
{
}

/// A drag takes the selected items that can be seen, in their order.
pub proof fn selected_items_in_sight_are_dragged(selected: Seq<usize>, in_sight: Seq<bool>, n: int)
    requires
        0 <= n <= in_sight.len(),
    ensures
        dragged(selected, in_sight, n) == Seq::new(n as nat, |i: int| i).filter(
            |i: int| in_sight[i] && selected.contains(i as usize),
        ),
    decreases n,
{
    reveal(Seq::filter);
    if n > 0 {
        selected_items_in_sight_are_dragged(selected, in_sight, n - 1);
        let s = Seq::new(n as nat, |i: int| i);
        assert(s.drop_last() =~= Seq::new((n - 1) as nat, |i: int| i));
        assert(s.last() == n - 1);
    }
}

/// Items can be put between others only in an open fence that is sorted by hand and shows no
/// folder; a panel takes no drops, and files go before links.
pub proof fn only_manual_fences_take_items_in_between(
    rolled_up: bool,
    sort: SortMode,
    is_portal: bool,
    index: Option<usize>,
    r: Option<usize>,
    shows_panel: bool,
    files: bool,
    url: bool,
    kind: DropKind,
)
    requires
        call_ensures(insertion_at, (rolled_up, sort, is_portal, index), r),
        call_ensures(drop_kind, (shows_panel, files, url), kind),
    ensures
        r is Some ==> !rolled_up && sort is Manual && !is_portal && r == index,
        !rolled_up && sort is Manual && !is_portal ==> r == index,
        shows_panel ==> kind is Nothing,
        !shows_panel && files ==> kind is Files,
        !shows_panel && !files && url ==> kind is Url,
        !files && !url ==> kind is Nothing,
{
}

} // verus!
