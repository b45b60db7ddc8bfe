use pecofence::commands::{another_round, command_name, Command, CommandQueue, TransferMode};
use pecofence::control::{
    answer, Control, Reaction, Signal, Timer, TrayEvent, FS_DEBOUNCE_MS, FS_STORM_MS,
};
use pecofence::dip::Dip;
use pecofence::drawing::{
    bucket_caption, column_sort, container_state, crop_wanted, drop_icons, empty_text, ground_of,
    has_pending_icons, header_columns, item_marks, pressed_header, redraw_after_crop, screen_under,
    sort_column, tab_marks, Area, Column, ContainerState, ContentState, CropSight, DateBucket,
    Ground, Grouping, IconState, Lookup, PressTarget, TitleState,
};
use pecofence::dropping::{
    after_menu, arms_dwell, badge_name, default_choice, drop_description, drop_kind, drop_spot_at,
    feedback_effect, folder_drop_target, folder_effect, insertion_at, menu_command, menu_effect,
    pictured_items, picture_offset, plan_drop, right_drag_choices, transfer_mode, Allowed,
    BadgeName, Cadence, DropAction, DropEffect, DropImage, DropKind, DropLights, DropSession,
    DropSpot, Dropped, InternalDrag, OverStats, TargetItem,
};
use pecofence::frame::{
    cancel_drag, far_apart, hit_test, sizing, DragCancel, Frame, Hit, SizeMove, TitleBar,
    TitleMove, TitlePress, TitleSight,
};
use pecofence::messages::{
    action_at, dispatch, Answer, HitNode, Message, PanelPointer, PanelRelease, Registered,
    ViewTimer,
};
use pecofence::model::{ColumnFlags, ColumnWidths, SortMode, ViewLayout};
use pecofence::paths::DroppedPath;
use pecofence::placement::{
    bounds_to_show, bounds_to_store, column_snap, dock_to_top, halve, monitor_labels,
    place_new_fence, start_point, step_icon_size, NewFence, Rect,
};
use pecofence::platform::{fold_path, portal_item_id, was_cut, HookTable};
use pecofence::plugin_api::InstanceKey;
use pecofence::startup::{log_file_name, parse_args, parse_number, Look};
use pecofence::state::WorkArea;
use pecofence::strip::{Slides, Strip, StripSight, TabDrag, TabHead};
use pecofence::tabs::TabDetach;
use std::collections::hash_map::DefaultHasher;
use std::hash::{Hash, Hasher};
use pecofence::view_state::{
    caption_drag, cut_changes, first_height, note_draw_result, renames_ended, Contents, Detaching,
    Display, DragOrigin, Fold, Redraw, RenameTarget, Renaming,
};

fn dip(x: f32) -> Dip {
    Dip { bits: x.to_bits() }
}

fn rect(left: i32, top: i32, right: i32, bottom: i32) -> Rect {
    Rect { left, top, right, bottom }
}

#[test]
fn every_part_of_a_window_is_hit() {
    let mut f = Frame {
        rect: rect(100, 100, 400, 300),
        border: 6,
        title_h: 30,
        locked: false,
        rolled: false,
    };
    let at = |f: &Frame, x: i32, y: i32| hit_test(x, y, f, false);
    assert_eq!(at(&f, 99, 150), Hit::Nowhere);
    assert_eq!(at(&f, 400, 150), Hit::Nowhere);
    assert_eq!(at(&f, 100, 100), Hit::TopLeft);
    assert_eq!(at(&f, 399, 100), Hit::TopRight);
    assert_eq!(at(&f, 100, 299), Hit::BottomLeft);
    assert_eq!(at(&f, 399, 299), Hit::BottomRight);
    assert_eq!(at(&f, 105, 200), Hit::Left);
    assert_eq!(at(&f, 394, 200), Hit::Right);
    assert_eq!(at(&f, 393, 200), Hit::Client);
    assert_eq!(at(&f, 200, 105), Hit::Top);
    assert_eq!(at(&f, 200, 294), Hit::Bottom);
    assert_eq!(at(&f, 200, 120), Hit::Caption);
    assert_eq!(hit_test(200, 120, &f, true), Hit::Client);
    assert_eq!(Hit::BottomRight.code(), 17);
    f.rolled = true;
    assert_eq!(at(&f, 100, 100), Hit::Left);
    assert_eq!(at(&f, 200, 100), Hit::Caption);
    f.locked = true;
    assert_eq!(at(&f, 100, 100), Hit::Caption);
    assert_eq!(at(&f, 100, 200), Hit::Client);
}

fn sight() -> TitleSight {
    TitleSight {
        rolled_up: true,
        rolling: false,
        locked: false,
        hover_peek: true,
        click_to_expand: true,
        in_size_move: false,
        menu_open: false,
        own_drag: false,
    }
}

#[test]
fn a_click_expands_and_its_double_click_does_nothing() {
    let mut t = TitleBar::new();
    let r = rect(0, 0, 100, 30);
    assert_eq!(t.pressed(&sight(), true, (5, 6), &r), TitlePress::Swallow);
    assert_eq!(t.released(9), Some(Command::ToggleRollUp(9)));
    assert_eq!(t.double_clicked(9), None);
    assert_eq!(t.double_clicked(9), Some(Command::ToggleRollUp(9)));
    t.peeking = true;
    assert_eq!(t.double_clicked(9), Some(Command::CommitExpanded(9)));
    assert_eq!(t.released(9), None);
}

#[test]
fn a_press_that_moves_becomes_a_drag() {
    let mut t = TitleBar::new();
    let r = rect(0, 0, 100, 30);
    t.pressed(&sight(), true, (5, 6), &r);
    assert!(matches!(t.pointer_moved(&sight(), (8, 6), true, (4, 4)), TitleMove::Hover { .. }));
    assert_eq!(
        t.pointer_moved(&sight(), (10, 6), true, (4, 4)),
        TitleMove::Drag { from: (5, 6) }
    );
    assert_eq!(t.released(9), None);
    let mut s = sight();
    s.click_to_expand = false;
    assert_eq!(
        t.pointer_moved(&s, (10, 6), false, (4, 4)),
        TitleMove::Hover { open_timer: true, keep_open: false }
    );
    assert_eq!(
        t.pointer_moved(&s, (10, 6), false, (4, 4)),
        TitleMove::Hover { open_timer: false, keep_open: false }
    );
    assert!(!t.pointer_left(false));
    assert!(!t.peek_armed);
    s.locked = true;
    assert_eq!(t.pressed(&s, true, (5, 6), &r), TitlePress::Swallow);
    s.locked = false;
    s.own_drag = true;
    assert_eq!(
        t.pressed(&s, true, (5, 6), &r),
        TitlePress::OwnDrag { offset: (5, 6), click_expand: false }
    );
    assert_eq!(t.pressed(&s, false, (5, 6), &r), TitlePress::Pass);
    assert_eq!(t.menu_asked(3, (1, 2)), Command::FenceMenu { fence: 3, x: 1, y: 2 });
    assert!(!far_apart((0, 0), (4, -4), (4, 4)));
    assert!(far_apart((0, 0), (0, -5), (4, 4)));
}

#[test]
fn moves_follow_the_pointer_and_merge_at_their_end() {
    let mut m = SizeMove::new();
    assert!(m.system_command(0xF012, (110, 105), true));
    assert!(!m.system_command(0xF012, (110, 105), false));
    assert!(!m.system_command(0xF020, (0, 0), true));
    m.enter(rect(100, 100, 300, 200), (130, 130));
    assert_eq!(m.grab, (10, 5));
    let step = m.moving(&rect(100, 100, 300, 200), (210, 115), 77, true);
    assert_eq!(step.rect, rect(200, 110, 400, 210));
    assert!(!step.snap);
    assert_eq!(step.hint, Some(Command::MergeHint { target: 77, x: 210 }));
    assert_eq!(m.moving(&step.rect, (210, 116), 77, true).hint, None);
    assert!(m.moving(&step.rect, (211, 116), 77, true).hint.is_some());
    let end = m.exit(&rect(200, 110, 400, 210), false, Some(77), false, false, true);
    assert_eq!(end.merge_into, Some(77));
    assert!(end.clear_hint && end.close_timer);
    assert_eq!(end.expanded_h, Some(100));
    m.enter(rect(100, 100, 300, 200), (110, 110));
    let back = m.exit(&rect(100, 100, 300, 200), false, Some(77), true, false, false);
    assert_eq!(back.merge_into, None);
    assert_eq!(back.expanded_h, None);
    m.enter(rect(100, 100, 300, 200), (110, 110));
    assert_eq!(m.exit(&rect(0, 0, 200, 100), true, Some(77), true, false, false).merge_into, None);
}

#[test]
fn the_edge_across_stays_put() {
    let r = rect(100, 100, 303, 205);
    assert_eq!(sizing(&r, 1, Some(200), false, 30, Some(100)), rect(103, 100, 303, 200));
    assert_eq!(sizing(&r, 4, Some(200), false, 30, Some(100)), rect(103, 105, 303, 205));
    assert_eq!(sizing(&r, 8, None, false, 30, None), r);
    assert_eq!(sizing(&r, 3, Some(200), true, 30, Some(100)), rect(100, 100, 300, 130));
}

#[test]
fn drags_that_are_taken_back_restore() {
    let plain = cancel_drag(DragCancel::Tab);
    assert!(plain.command.is_none() && plain.restore.is_none() && !plain.clear_hint);
    let change = TabDetach { tab: 1, source_host: 2, remaining_host: 2, before: vec![] };
    let torn = cancel_drag(DragCancel::Remote { change, hinted: true });
    assert!(torn.clear_hint);
    assert!(matches!(torn.command, Some(Command::CancelDetach { .. })));
    let moved = cancel_drag(DragCancel::Window { window: 5, rect: rect(0, 0, 1, 1), hinted: false });
    assert_eq!(moved.restore, Some((5, rect(0, 0, 1, 1))));
}

#[test]
fn messages_find_their_answers() {
    let ids = Registered { drag_image: 0xC001, taskbar_created: 0xC002 };
    assert_eq!(dispatch(33, None, &ids, true), Answer::Number(3));
    assert_eq!(dispatch(16, None, &ids, true), Answer::Number(0));
    assert_eq!(dispatch(20, None, &ids, true), Answer::Number(1));
    assert_eq!(dispatch(134, None, &ids, true), Answer::Work(Message::ActivateFrame));
    assert_eq!(dispatch(134, None, &ids, false), Answer::System);
    assert_eq!(dispatch(0xC001, None, &ids, false), Answer::DragImage);
    assert_eq!(dispatch(0xC002, None, &ids, false), Answer::TaskbarCreated);
    assert_eq!(dispatch(2, None, &ids, false), Answer::Work(Message::Destroy));
    assert_eq!(dispatch(36, None, &ids, false), Answer::System);
    assert_eq!(dispatch(275, Some(ViewTimer::Tip), &ids, true), Answer::Timer(ViewTimer::Tip));
    assert_eq!(
        dispatch(275, Some(ViewTimer::ContentFinish), &ids, true),
        Answer::Transition(ViewTimer::ContentFinish)
    );
    assert_eq!(dispatch(275, None, &ids, true), Answer::System);
    assert_eq!(dispatch(0, None, &Registered { drag_image: 0, taskbar_created: 0 }, true), Answer::System);
    assert_eq!(Message::of(132), Some(Message::HitTest));
    assert_eq!(Message::of(9999), None);
}

#[test]
fn panels_are_invoked_by_press_and_release() {
    let nodes = vec![
        HitNode { action: 1, under: true },
        HitNode { action: 2, under: true },
        HitNode { action: 3, under: false },
    ];
    assert_eq!(action_at(&nodes), Some(2));
    assert_eq!(action_at(&vec![]), None);
    let mut p = PanelPointer::new();
    assert!(p.down(Some(2), 7));
    assert_eq!(p.up(Some(2), 7, true), PanelRelease::Done { invoke: Some((2, 7)) });
    p.down(Some(2), 7);
    assert_eq!(p.up(Some(2), 8, true), PanelRelease::Done { invoke: None });
    p.down(Some(2), 7);
    assert_eq!(p.up(Some(1), 7, false), PanelRelease::Done { invoke: None });
    assert_eq!(p.up(Some(1), 7, false), PanelRelease::Pass);
    assert!(!p.down(None, 7));
    p.down(Some(2), 7);
    p.lost();
    assert_eq!(p.up(Some(2), 7, true), PanelRelease::Done { invoke: None });
}

fn head(id: u128, title: &str) -> TabHead {
    TabHead {
        id,
        title: title.to_string(),
        color: None,
        title_size: None,
        title_color: None,
    }
}

fn calm() -> StripSight {
    StripSight { rolled_up: false, height_changing: false, animations: true }
}

#[test]
fn tabs_come_back_to_where_they_were() {
    let mut s = Strip::new(1);
    let c = s.set_tabs(vec![head(1, "a"), head(2, "b")], 1, dip(0.0), &calm());
    assert_eq!(c.joined, vec![1, 2]);
    assert!(c.redraw && !c.switched);
    assert_eq!(c.slides, Slides::Follow);
    s.scroll = dip(40.0);
    let c = s.set_tabs(vec![head(1, "a"), head(2, "b")], 2, dip(40.0), &calm());
    assert!(c.switched && c.glide);
    assert_eq!(c.swap, Some(true));
    assert_eq!(s.scroll, dip(0.0));
    assert_eq!(s.restore, Some(dip(0.0)));
    let c = s.set_tabs(vec![head(1, "a"), head(2, "b")], 1, dip(7.0), &calm());
    assert_eq!(c.swap, Some(false));
    assert_eq!(s.scroll, dip(40.0));
    s.items_came();
    assert_eq!(s.scroll, dip(40.0));
    s.layout_set(ViewLayout::Icons, ViewLayout::List);
    assert_eq!(s.scroll, dip(40.0));
    s.layout_set(ViewLayout::List, ViewLayout::Details);
    assert_eq!(s.scroll, dip(0.0));
    let c = s.set_tabs(vec![head(1, "a")], 1, dip(0.0), &calm());
    assert!(!c.same_set && c.joined.is_empty());
    assert_eq!(s.memory.get(&2), None);
    assert_eq!(s.active_index(), 0);
}

#[test]
fn a_dragged_strip_keeps_its_order() {
    let mut s = Strip::new(1);
    s.set_tabs(vec![head(2, "b"), head(1, "a")], 1, dip(0.0), &calm());
    s.drag = Some(TabDrag { index: 0, start_index: 1 });
    let c = s.set_tabs(vec![head(1, "A"), head(2, "b")], 2, dip(0.0), &calm());
    assert_eq!(s.tabs.iter().map(|t| t.id).collect::<Vec<_>>(), vec![2, 1]);
    assert_eq!(s.tabs[1].title, "A");
    assert_eq!(c.slides, Slides::Keep);
    assert!(!c.glide);
}

#[test]
fn folding_keeps_the_height() {
    let mut f = Fold::new(true, 0);
    assert_eq!(f.expanded_h, 1);
    assert!(f.is_rolled() && !f.shows_content());
    assert!(f.set_rolled(false, 30, 200));
    assert_eq!(f.expanded_h, 230);
    f.commit_expanded();
    assert!(!f.set_rolled(false, 30, 200));
    let r = f.restore(&rect(0, 10, 50, 60), true, 300, 30);
    assert_eq!(r, rect(0, 10, 50, 40));
    assert_eq!(f.restore(&rect(0, 10, 50, 60), false, 300, 30), rect(0, 10, 50, 310));
    assert_eq!(f.apply_height(&rect(0, 10, 50, 60), 20), rect(0, 10, 50, 30));
    assert_eq!(f.adopt_dpi(96, 40, 99), (96, false));
    assert_eq!(f.adopt_dpi(96, 144, 30), (144, true));
    assert_eq!(f.expanded_h, 30);
    f.rolling = true;
    f.retire();
    assert!(!f.rolling);
    assert_eq!(first_height(true, 0, &rect(0, 0, 5, 100)), 1);
    assert_eq!(first_height(false, 30, &rect(0, 0, 5, 100)), 100);
}

#[test]
fn only_changes_are_drawn() {
    let widths = ColumnWidths { date: dip(1.0), kind: dip(2.0), size: dip(3.0) };
    let mut d = Display::new(true, widths, dip(1.0));
    assert_eq!(d.set_layout(ViewLayout::Icons), Redraw::Nothing);
    assert_eq!(d.set_sort_indicator(SortMode::Name, false), Redraw::Nothing);
    assert_eq!(d.set_layout(ViewLayout::Details), Redraw::All);
    assert_eq!(d.set_sort_indicator(SortMode::Size, false), Redraw::Content);
    assert_eq!(d.set_column_widths(widths, false), Redraw::Nothing);
    let wider = ColumnWidths { date: dip(9.0), ..widths };
    assert_eq!(d.set_column_widths(wider, true), Redraw::Nothing);
    assert_eq!(d.set_column_widths(wider, false), Redraw::Content);
    let flags = ColumnFlags { date: false, kind: true, size: true };
    assert_eq!(d.set_columns_visible(flags), Redraw::All);
    assert_eq!(d.set_group_by_date(true), Redraw::Content);
    assert_eq!(d.set_group_by_date(true), Redraw::Nothing);
    assert_eq!(d.set_is_inbox(false, false), Redraw::Nothing);
    assert_eq!(d.set_is_inbox(true, true), Redraw::All);
    assert_eq!(d.set_appearance(None, dip(1.0), false), Redraw::Nothing);
    assert_eq!(d.set_appearance(None, dip(0.5), true), Redraw::All);
    let c = d.set_portal_deco(true, true, false, false, true, false);
    assert!(c.chrome && c.content);
    let c = d.set_portal_deco(true, true, false, false, true, false);
    assert!(!c.chrome && !c.content);
}

#[test]
fn panels_take_the_place_of_items() {
    let mut c = Contents { panel: None, auto_height: true };
    assert!(c.takes_items());
    let key = InstanceKey { id: 1, activation: 1 };
    assert!(c.set(Some(key)));
    assert!(!c.set(Some(key)));
    assert!(!c.auto_height && !c.takes_items());
    assert!(c.set(None));
}

#[test]
fn renames_follow_their_item() {
    let mut r = Renaming { item: None, title: false };
    let mut ids: Vec<u128> = vec![5, 6];
    let c = r.set_item(Some(6), &ids, false);
    assert_eq!(c.select, Some(1));
    assert!(c.redraw && !c.resume_close);
    assert!(r.rekey(&mut ids, 6, 8));
    assert_eq!(ids, vec![5, 8]);
    assert_eq!(r.item, Some(8));
    assert!(!r.rekey(&mut ids, 77, 8));
    let c = r.set_item(None, &ids, true);
    assert!(c.resume_close && !c.redraw);
    assert!(!r.set_title(true));
    assert!(r.set_title(false));
    assert_eq!(renames_ended(RenameTarget::Nothing, 1, Some(5)), (true, true));
    assert_eq!(renames_ended(RenameTarget::Item(5), 1, Some(5)), (false, true));
    assert_eq!(renames_ended(RenameTarget::Title(1), 1, Some(5)), (true, false));
    assert!(!cut_changes(&vec![1, 2], &vec![2, 1]));
    assert!(cut_changes(&vec![1, 2], &vec![2, 3]));
    let mut lost = false;
    assert_eq!(note_draw_result(&mut lost, false), Some(Command::DeviceLost));
    assert_eq!(note_draw_result(&mut lost, false), None);
}

#[test]
fn windows_are_held_where_they_were_taken() {
    let drag = caption_drag(1, 2, rect(0, 0, 9, 9), (3, 4), (3, 4), true);
    assert!(!drag.started);
    assert!(matches!(drag.origin, DragOrigin::Caption { click_expand: true, .. }));
    let mut d = Detaching { pending: true, cancelled: true };
    let change = || TabDetach { tab: 8, source_host: 2, remaining_host: 2, before: vec![] };
    let torn = d.begin(1, change(), &rect(10, 10, 90, 90), (15, 17)).unwrap();
    assert_eq!((torn.fence, torn.offset), (8, (5, 7)));
    assert!(d.begin(1, change(), &rect(10, 10, 90, 90), (15, 17)).is_none());
    assert!(d.take_cancelled());
    assert!(!d.take_cancelled());
}

#[test]
fn columns_and_captions_belong_together() {
    for c in [Column::Name, Column::Date, Column::Kind, Column::Size] {
        assert_eq!(sort_column(column_sort(c)), Some(c));
    }
    assert_eq!(sort_column(SortMode::Manual), None);
    let flags = ColumnFlags { date: false, kind: true, size: true };
    assert_eq!(header_columns(true, &flags), vec![Column::Name, Column::Kind, Column::Size]);
    assert!(header_columns(false, &flags).is_empty());
    assert_eq!(empty_text(true, true, true), "没有未归类的项目");
    assert_eq!(empty_text(false, true, true), "松开以放入");
    assert_eq!(empty_text(false, false, true), "此文件夹为空。");
    assert_eq!(empty_text(false, false, false), "将项目拖到此处");
    assert_eq!(bucket_caption(DateBucket::Today), "今天");
    assert_eq!(bucket_caption(DateBucket::Earlier), "更早");
    assert_eq!(pressed_header(Some(PressTarget::Header(Column::Date)), true), Some(Column::Date));
    assert_eq!(pressed_header(Some(PressTarget::Up), true), None);
}

#[test]
fn items_and_tabs_carry_their_marks() {
    let c = ContentState {
        items: vec![10, 11, 12],
        selected: vec![1],
        cut: vec![12],
        hover: Some(0),
        own_drag: false,
        drop_item: Some(2),
        pressed: Some(PressTarget::Item(0)),
        press_inside: true,
        focus_visible: true,
        anchor: Some(1),
        renaming: None,
    };
    let m = item_marks(&c);
    assert!(m[0].hover && m[0].pressed && !m[0].selected);
    assert!(m[1].selected && m[1].focused && m[1].unfolded);
    assert!(m[2].drop_target && m[2].dimmed);
    let c = ContentState { own_drag: true, renaming: Some(11), ..c };
    let m = item_marks(&c);
    assert!(!m[0].hover && !m[0].pressed && !m[1].unfolded);
    let t = TitleState {
        tabs: vec![4, 5],
        active: 5,
        tab_hover: Some(0),
        drop_tab: None,
        pressed: Some(PressTarget::Tab(1)),
        press_inside: true,
        dragged: Some(1),
    };
    let m = tab_marks(&t);
    assert!(m[0].hover && !m[0].active);
    assert!(m[1].active && m[1].pressed && m[1].dragging);
}

#[test]
fn icons_that_were_waited_for_fade_in() {
    let mut a = IconState::new();
    assert!(!a.looked_up(Lookup::Pending));
    assert!(a.looked_up(Lookup::Ready));
    assert!(a.loaded && a.fading);
    let mut b = IconState::new();
    assert!(!b.looked_up(Lookup::Ready));
    let mut c = IconState::new();
    c.looked_up(Lookup::Failed);
    let mut all = vec![a, b, c];
    assert!(!has_pending_icons(&all));
    drop_icons(&mut all);
    assert!(has_pending_icons(&all));
}

#[test]
fn the_wallpaper_is_cut_once() {
    let r = rect(10, 10, 110, 60);
    let mut s = CropSight {
        liquid_glass: false,
        height_target: Some(80),
        height_changing: true,
        cut: None,
    };
    let a = crop_wanted(&r, &s).unwrap();
    assert_eq!(a, Area { left: 10, top: 10, width: 100, height: 80 });
    s.cut = Some(a);
    assert_eq!(crop_wanted(&r, &s), None);
    s.liquid_glass = true;
    assert_eq!(crop_wanted(&r, &s).map(|a| a.height), Some(50));
    let screens = vec![
        Area { left: -100, top: 0, width: 100, height: 100 },
        Area { left: 0, top: 0, width: 200, height: 100 },
    ];
    assert_eq!(screen_under(&screens, &r, &a), Some(1));
    assert_eq!(screen_under(&screens, &rect(900, 900, 901, 901), &a), Some(0));
    assert_eq!(screen_under(&vec![], &r, &a), None);
    assert_eq!(ground_of(true, true, true, true, Some(a), a), Ground::ClearGlass(a));
    assert_eq!(ground_of(true, true, false, true, None, a), Ground::Glass);
    assert_eq!(ground_of(false, true, true, true, None, a), Ground::Solid);
    assert_eq!(redraw_after_crop(true, false, false), Redraw::Chrome);
    assert_eq!(redraw_after_crop(true, true, false), Redraw::All);
    assert_eq!(redraw_after_crop(false, true, true), Redraw::Nothing);
}

#[test]
fn menus_offer_what_both_sides_take() {
    let all = vec![DropEffect::Link, DropEffect::Copy, DropEffect::Move];
    assert_eq!(
        right_drag_choices(&all, Allowed::from_mask(5)),
        vec![DropEffect::Copy, DropEffect::Link]
    );
    assert_eq!(
        right_drag_choices(&all, Allowed::from_mask(7)),
        vec![DropEffect::Move, DropEffect::Copy, DropEffect::Link]
    );
    let c = vec![DropEffect::Copy, DropEffect::Link];
    assert_eq!(default_choice(&c, DropEffect::Link), DropEffect::Link);
    assert_eq!(default_choice(&c, DropEffect::Move), DropEffect::Copy);
    assert_eq!(default_choice(&vec![], DropEffect::Move), DropEffect::Nothing);
    for e in [DropEffect::Move, DropEffect::Copy, DropEffect::Link] {
        assert_eq!(menu_effect(menu_command(e)), e);
    }
    assert_eq!(menu_effect(4), DropEffect::Nothing);
    assert_eq!(transfer_mode(DropEffect::Link), Some(TransferMode::Link));
    assert_eq!(transfer_mode(DropEffect::Nothing), None);
    assert_eq!(DropEffect::Link.to_raw(), 4);
    assert_eq!(folder_effect(true, DropEffect::Move, DropEffect::Copy), DropEffect::Move);
    assert_eq!(folder_effect(false, DropEffect::Move, DropEffect::Copy), DropEffect::Copy);
}

fn nowhere() -> DropSpot {
    DropSpot { tab: None, folder: None, insert: None, self_drop: false }
}

#[test]
fn points_mean_tabs_then_folders_then_places() {
    let tabs: Vec<u128> = vec![1, 2];
    assert_eq!(
        drop_spot_at(&tabs, Some(1), Some(4), Some(3), 1, None),
        DropSpot { tab: Some(1), ..nowhere() }
    );
    assert_eq!(
        drop_spot_at(&tabs, Some(1), Some(4), Some(3), 1, Some(2)),
        DropSpot { self_drop: true, ..nowhere() }
    );
    assert_eq!(
        drop_spot_at(&tabs, None, Some(4), Some(3), 1, Some(1)),
        DropSpot { folder: Some(4), ..nowhere() }
    );
    assert_eq!(
        drop_spot_at(&tabs, None, None, Some(3), 1, Some(1)),
        DropSpot { insert: Some(3), ..nowhere() }
    );
    assert_eq!(
        drop_spot_at(&tabs, None, None, None, 1, Some(1)),
        DropSpot { self_drop: true, ..nowhere() }
    );
    assert_eq!(drop_spot_at(&vec![1], Some(0), None, None, 1, None), nowhere());
    let items = vec![
        TargetItem { id: 7, takes_files: true },
        TargetItem { id: 8, takes_files: false },
    ];
    assert_eq!(folder_drop_target(Some(0), &items, &vec![]), Some(0));
    assert_eq!(folder_drop_target(Some(0), &items, &vec![7]), None);
    assert_eq!(folder_drop_target(Some(1), &items, &vec![]), None);
    assert_eq!(insertion_at(false, SortMode::Manual, false, Some(2)), Some(2));
    assert_eq!(insertion_at(false, SortMode::Name, false, Some(2)), None);
    assert_eq!(badge_name(DropSpot { tab: Some(1), ..nowhere() }, 2, 0), BadgeName::Tab(1));
    assert_eq!(badge_name(DropSpot { folder: Some(1), ..nowhere() }, 2, 1), BadgeName::Front);
    assert_eq!(
        feedback_effect(DropKind::Files, nowhere(), true, DropEffect::Link, DropEffect::Copy),
        DropEffect::Move
    );
    assert_eq!(
        feedback_effect(DropKind::Url, nowhere(), true, DropEffect::Link, DropEffect::Copy),
        DropEffect::Link
    );
    assert_eq!(drop_kind(false, false, true), DropKind::Url);
    assert_eq!(drop_kind(true, true, true), DropKind::Nothing);
    assert_eq!(
        drop_description(DropEffect::Nothing, "x".to_string()),
        (DropImage::Invalid, String::new())
    );
    assert!(arms_dwell(true, false, false, true, false));
}

fn file(p: &str, parent: &str) -> DroppedPath {
    DroppedPath { path: p.to_string(), parent: Some(parent.to_string()), namespace: false }
}

fn dropped() -> Dropped {
    Dropped {
        kind: DropKind::Files,
        spot: nowhere(),
        active: 1,
        tab_fence: None,
        folder: None,
        recycle_bin: false,
        internal: None,
        paths: vec![file("C:\\a.txt", "C:\\")],
        has_url: false,
        allowed: Allowed::from_mask(7),
        link: DropEffect::Link,
        moved: DropEffect::Move,
        by_keys: DropEffect::Copy,
        right: false,
    }
}

#[test]
fn drops_from_elsewhere_are_planned() {
    let p = plan_drop(dropped());
    assert_eq!(p.effect, DropEffect::Copy);
    assert!(matches!(&p.action, DropAction::Files { paths, to: 1 } if paths.len() == 1));
    let p = plan_drop(Dropped { tab_fence: Some(5), ..dropped() });
    assert!(matches!(p.action, DropAction::Files { to: 5, .. }));
    let p = plan_drop(Dropped { folder: Some("C:\\F".to_string()), right: true, ..dropped() });
    assert_eq!(
        p.choices.as_ref().unwrap(),
        &vec![DropEffect::Move, DropEffect::Copy, DropEffect::Link]
    );
    let q = after_menu(p, DropEffect::Link);
    assert_eq!(q.effect, DropEffect::Link);
    assert!(matches!(q.action, DropAction::IntoFolder { fence: 1, .. }));
    assert!(matches!(after_menu(q, DropEffect::Nothing).action, DropAction::Nothing));
    let p = plan_drop(Dropped {
        folder: Some("::bin".to_string()),
        recycle_bin: true,
        right: true,
        ..dropped()
    });
    assert_eq!(p.effect, DropEffect::Move);
    assert_eq!(p.choices.unwrap(), vec![DropEffect::Move]);
    let p = plan_drop(Dropped { folder: Some("C:\\".to_string()), ..dropped() });
    assert!(matches!(p.action, DropAction::Nothing));
    assert_eq!(p.effect, DropEffect::Nothing);
    let p = plan_drop(Dropped { paths: vec![], ..dropped() });
    assert!(matches!(p.action, DropAction::Nothing));
    let p = plan_drop(Dropped { kind: DropKind::Url, has_url: true, ..dropped() });
    assert!(matches!(p.action, DropAction::Link { to: 1 }));
    let p = plan_drop(Dropped { kind: DropKind::Url, ..dropped() });
    assert!(matches!(p.action, DropAction::Nothing));
}

#[test]
fn drops_of_own_items_are_planned() {
    let own = || Dropped {
        internal: Some(InternalDrag {
            from: 1,
            items: vec![10],
            paths: vec![file("C:\\a.txt", "C:\\")],
        }),
        ..dropped()
    };
    assert!(matches!(plan_drop(own()).action, DropAction::Nothing));
    let p = plan_drop(Dropped { spot: DropSpot { insert: Some(2), ..nowhere() }, ..own() });
    assert!(matches!(&p.action, DropAction::Reorder { fence: 1, items, index: 2 } if items == &vec![10]));
    let p = plan_drop(Dropped { tab_fence: Some(4), ..own() });
    assert!(matches!(p.action, DropAction::MoveItems { to: 4, .. }));
    assert_eq!(p.effect, DropEffect::Move);
    let p = plan_drop(Dropped { folder: Some("D:\\F".to_string()), ..own() });
    assert!(matches!(p.action, DropAction::IntoFolder { .. }));
    assert_eq!(p.effect, DropEffect::Copy);
    let p = plan_drop(Dropped {
        folder: Some("D:\\F".to_string()),
        spot: DropSpot { self_drop: true, ..nowhere() },
        ..own()
    });
    assert_eq!(p.effect, DropEffect::Nothing);
}

#[test]
fn sessions_write_a_badge_once() {
    let mut s = DropSession::new();
    assert!(!s.describe((DropImage::Move, "a".to_string())));
    s.enter(DropKind::Files, false);
    assert!(s.describe((DropImage::Move, "a".to_string())));
    assert!(!s.describe((DropImage::Move, "a".to_string())));
    assert!(s.over(true));
    assert!(s.forget(true));
    assert!(!s.forget(true));
    assert_eq!(s.finish(false), (DropKind::Files, true));
    assert!(!s.over(true));
    let mut lights = DropLights {
        tab: None,
        folder: None,
        insert: None,
        wash: false,
        caret: None,
        inactive: false,
    };
    let c = lights.set(Some(DropSpot { insert: Some(3), ..nowhere() }), false);
    assert!(c.content && c.caret && c.inactive && !c.chrome && !c.wash);
    let c = lights.set(None, false);
    assert!(c.content && c.caret);
    assert_eq!(lights.caret, Some(3));
    let mut o = OverStats::new();
    assert_eq!(o.report(), Cadence::Idle);
    o.begin(0);
    o.end(0, 7_000_000);
    o.begin(100_000_000);
    assert_eq!(o.report(), Cadence::Even);
    o.begin(0);
    o.end(0, 7_000_001);
    assert_eq!(o.report(), Cadence::Stuttered);
}

#[test]
fn pictures_lift_off_from_the_press() {
    assert_eq!(picture_offset((15, 25), (10, 20), 50, 50), Some((5, 5)));
    assert_eq!(picture_offset((60, 25), (10, 20), 50, 50), None);
    assert_eq!(picture_offset((15, 25), (10, 20), 5000, 50), None);
    assert_eq!(picture_offset((15, 25), (10, 20), 0, 50), None);
    let sight = vec![true, true, false, true];
    assert_eq!(pictured_items(false, &vec![3, 0, 2, 9], &sight, 4), Some(vec![0, 3]));
    assert_eq!(pictured_items(false, &vec![3, 0], &sight, 1), None);
    assert_eq!(pictured_items(true, &vec![3, 0], &sight, 4), None);
    assert_eq!(pictured_items(false, &vec![2], &sight, 4), None);
}

#[test]
fn folder_changes_come_in_batches() {
    let mut c = Control::new(None);
    assert_eq!(
        c.react(Signal::FoldersChanged, 0, true, None),
        vec![Reaction::SetTimer(Timer::Folders, FS_DEBOUNCE_MS)]
    );
    assert!(c.react(Signal::FoldersChanged, 1, true, None).is_empty());
    assert_eq!(
        c.react(Signal::Timer(Timer::Folders), 60, true, None),
        vec![Reaction::KillTimer(Timer::Folders), Reaction::ReadFolders]
    );
    c.folders_read(60);
    assert_eq!(
        c.react(Signal::FoldersChanged, 100, true, None),
        vec![Reaction::SetTimer(Timer::Folders, FS_STORM_MS)]
    );
    assert_eq!(
        c.react(Signal::Timer(Timer::Save), 100, false, None),
        vec![Reaction::SetTimer(Timer::Save, 500)]
    );
    assert_eq!(
        c.react(Signal::Timer(Timer::DesktopId), 100, true, Some(4)),
        vec![Reaction::NotifyWallpaper]
    );
    assert!(c.react(Signal::Timer(Timer::DesktopId), 100, true, Some(4)).is_empty());
    assert_eq!(answer(Signal::Other), pecofence::control::Answer::Unhandled);
    assert!(!c.react(Signal::Tray(TrayEvent::ContextMenu), 0, true, None).is_empty());
}

#[test]
fn new_fences_find_room() {
    let f = NewFence { w: 100, h: 80, gap: 8, step: 20, x: 500, y: 500 };
    let work = rect(0, 0, 1000, 1000);
    let near = rect(300, 300, 400, 400);
    let r = place_new_fence(&f, Some(near), &work, &vec![near]);
    assert_eq!(r, rect(408, 300, 508, 380));
    let r = place_new_fence(&f, None, &work, &vec![]);
    assert_eq!(r, rect(450, 460, 550, 540));
    assert_eq!(dock_to_top(&rect(-50, 300, 50, 400), &work), rect(0, 0, 100, 100));
    assert_eq!(
        column_snap(&rect(900, 0, 950, 50), 120, Some(80), Some(work), 50),
        Some(rect(880, 0, 1000, 50))
    );
    assert_eq!(step_icon_size(48, true), Some(64));
    assert_eq!(step_icon_size(96, true), None);
    assert_eq!(step_icon_size(32, false), None);
    assert_eq!(halve(-3), -1);
    assert_eq!(bounds_to_store(rect(0, 10, 5, 20), true, 300), rect(0, 10, 5, 310));
    assert_eq!(bounds_to_show(rect(0, 10, 5, 310), true, 30), rect(0, 10, 5, 40));
    let area = WorkArea {
        device_path: "m".to_string(),
        left: 0,
        top: 0,
        right: 1920,
        bottom: 1040,
        dpi: 96,
        mon_left: 0,
        mon_top: 0,
        mon_right: 1920,
        mon_bottom: 1080,
    };
    assert_eq!(start_point(Some(rect(0, 0, 10, 20)), &vec![], (7, 7)), (5, 10));
    assert_eq!(start_point(None, &vec![], (7, 7)), (7, 7));
    let labels = monitor_labels(&vec![area]);
    assert_eq!((labels[0].number, labels[0].width, labels[0].height), (1, 1920, 1080));
}

#[test]
fn commands_wait_their_turn() {
    let mut q = CommandQueue::new();
    assert_eq!(q.push(Command::Quit), None);
    q.attach(9);
    assert_eq!(q.push(Command::TogglePeek), Some(9));
    assert_eq!(q.drain(), vec![Command::Quit, Command::TogglePeek]);
    assert!(q.drain().is_empty());
    assert!(another_round(7, 1));
    assert!(!another_round(8, 1));
    assert!(!another_round(0, 0));
    assert_eq!(command_name(&Command::Quit), "Quit");
    assert_eq!(command_name(&Command::RefreshFence(1)), "RefreshFence");
}

#[test]
fn arguments_are_read() {
    let args: Vec<String> = ["--dark", "--portable", "--exit-after", "250", "--portal", "C:/x"]
        .iter()
        .map(|s| s.to_string())
        .collect();
    let a = parse_args(&args);
    assert!(a.dark && a.portable && !a.light);
    assert_eq!(a.look(), Some(Look::Dark));
    assert_eq!(a.exit_after_ms, Some(250));
    assert_eq!(a.portal, Some("C:/x".to_string()));
    assert_eq!(parse_number("4294967295"), Some(u32::MAX));
    assert_eq!(parse_number("4294967296"), None);
    assert_eq!(parse_number("x"), None);
    assert_eq!(log_file_name(None), "pecofence.log");
    assert_eq!(log_file_name(Some("  ")), "pecofence.log");
    assert_eq!(log_file_name(Some(" two ")), "pecofence.two.log");
}

#[test]
fn hooks_do_not_come_back() {
    let mut t: HookTable<u32> = HookTable::new();
    let a = t.install(5, 10);
    assert!(t.take(5, 1).is_none());
    let slot = t.take(5, 0).unwrap();
    assert!(t.take(5, 0).is_none());
    t.put_back(5, slot);
    let slot = t.take(5, 0).unwrap();
    t.uninstall(&a);
    t.put_back(5, slot);
    assert!(t.take(5, 0).is_none());
    let b = t.install(5, 20);
    assert_eq!(b.generation, 2);
    t.uninstall(&a);
    assert_eq!(t.take(5, 0).unwrap().callback, 20);
}

#[test]
fn ids_of_files_ignore_their_spelling() {
    let a = portal_item_id("C:/Projects/Ä.txt");
    assert_eq!(a, portal_item_id("c:\\projects\\ä.TXT"));
    assert_ne!(a, portal_item_id("C:/Projects/B.txt"));
    assert_eq!(fold_path("C:/Ä"), "c:\\ä");
    assert!(was_cut(&Some(vec![2, 0, 0, 0])));
    assert!(!was_cut(&Some(vec![3, 0, 0, 0])));
    assert!(!was_cut(&Some(vec![2])));
    assert!(!was_cut(&None));
}

#[test]
fn hashed_ids_match_the_standard_hash() {
    let key = "c:\\x.txt".to_string();
    let mut h1 = DefaultHasher::new();
    key.hash(&mut h1);
    let mut h2 = DefaultHasher::new();
    (&key, 0x5eedu16).hash(&mut h2);
    let want = ((h1.finish() as u128) << 64) | h2.finish() as u128;
    assert_eq!(portal_item_id("C:/x.txt"), want);
}

#[test]
fn panels_know_their_window() {
    assert_eq!(
        container_state(1, false),
        ContainerState { grouping: Grouping::Single, visible: true }
    );
    assert_eq!(
        container_state(2, true),
        ContainerState { grouping: Grouping::Tabbed, visible: false }
    );
}
