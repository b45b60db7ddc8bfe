use pecofence::clock::new_id;
use pecofence::commands::{Command, TransferMode};
use pecofence::dip::Dip;
use pecofence::fence_ops::default_fences;
use pecofence::file_ops::{new_routes, shortcut_kind, Shortcut};
use pecofence::filing::DesktopEntry;
use pecofence::handling::{Effect, Handled, Seen};
use pecofence::housekeeping::Rounds;
use pecofence::item_ops::{
    name_taken, name_to_try, plan_paste, CutMarks, Launch, MoveItems, Paste, PendingRoute,
    RenameRequest, Verb,
};
use pecofence::layouts::Setup;
use pecofence::model::{
    Anchor, AssignedBy, Config, Decision, FenceId, IconKey, Item, ItemId, ItemKey, MonitorIdentity,
    NormGeometry, Origin, RuleSet, SortMode, Target,
};
use pecofence::model::ColumnWidths;
use pecofence::placement::Rect;
use pecofence::startup::{
    give_up_hiding, has_idle_rules, hides_icons, idle_rules_due, reads_desktop,
};
use pecofence::state::{AppState, WorkArea};
use pecofence::store::ConfigStore;
use pecofence::tables::Catalog;
use pecofence::windows::{height_to_follow, OpenWindow};
use std::collections::HashMap;

fn dip(x: f32) -> Dip {
    Dip { bits: x.to_bits() }
}

fn geo(x: f32) -> NormGeometry {
    NormGeometry {
        monitor: "test".to_string(),
        x: dip(x),
        y: dip(0.0),
        w: dip(300.0),
        h: dip(200.0),
        work_w: dip(1920.0),
        work_h: dip(1040.0),
        anchor: Anchor::LeftTop,
    }
}

fn work() -> WorkArea {
    WorkArea {
        device_path: "test".to_string(),
        left: 0,
        top: 0,
        right: 1920,
        bottom: 1040,
        dpi: 96,
        mon_left: 0,
        mon_top: 0,
        mon_right: 1920,
        mon_bottom: 1040,
    }
}

fn setup() -> Setup {
    Setup {
        fingerprint: vec![MonitorIdentity {
            device_path: "test".to_string(),
            work_dip: [dip(1920.0), dip(1040.0)],
            dpi: 96,
        }],
        fences: default_fences(
            ["Programs", "Folders", "Files", "Desktop"],
            [geo(0.0), geo(320.0), geo(640.0), geo(960.0)],
            48,
        ),
        rules: RuleSet { keep_updated: true, list: vec![] },
    }
}

fn test_state() -> AppState {
    let mut state = AppState {
        config: Config::default(),
        store: ConfigStore::new("state-test".to_string()),
        layout: 0,
        dirty: false,
        catalog: Catalog::new(),
        portal_items: HashMap::new(),
        portal_members: HashMap::new(),
        portal_cwd: HashMap::new(),
        work_areas: vec![work()],
        first_run: true,
        recovered_from: None,
    };
    state.ensure_layout(setup());
    state
}

fn add_item(state: &mut AppState, fence: FenceId, name: &str) -> ItemId {
    let item = Item {
        id: new_id(),
        key: ItemKey::from_path(&format!("C:/Users/Me/Desktop/{name}.txt")),
        origin: Origin::UserDesktop,
        display_name: name.to_string(),
        file_id: None,
        mtime: 1,
        is_folder: false,
        attrs: 0,
        icon_key: IconKey::ByExt(".txt".to_string()),
        orphaned_since: None,
        size: 0,
        open_count: 0,
        last_opened: None,
    };
    let id = item.id;
    state.catalog.insert(item.key.clone(), id);
    state.config.items.insert(id, item);
    state.config.assign(0, id, fence, AssignedBy::User);
    id
}

fn names(state: &AppState, fence: FenceId) -> Vec<String> {
    let f = state.fence(fence).unwrap();
    state.items_of(f).iter().map(|i| i.display_name.clone()).collect()
}

fn entry(name: &str, ruling: Decision) -> DesktopEntry {
    DesktopEntry {
        path: format!("C:/Users/Me/Desktop/{name}"),
        file_name: name.to_string(),
        shell_name: None,
        origin: Origin::UserDesktop,
        mtime: 5,
        is_folder: false,
        attributes: 32,
        size: 10,
        icon_key: IconKey::ByExt(".txt".to_string()),
        ruling,
    }
}

fn seen() -> Seen {
    Seen {
        geometry: None,
        rolled: None,
        host: None,
        slot: None,
        settings_window: None,
        default_widths: ColumnWidths { date: dip(1.0), kind: dip(2.0), size: dip(3.0) },
        entries: vec![],
        on_desktop: vec![],
    }
}

fn effects(h: Handled) -> Vec<Effect> {
    match h {
        Handled::Done(e) => e,
        Handled::Delegate(_) => panic!("handled here"),
    }
}

#[test]
fn rolling_a_tab_rolls_its_host() {
    let mut state = test_state();
    let (a, b) = (state.fences()[0].id, state.fences()[1].id);
    state.attach_tab(b, a);
    let e = effects(state.handle(Command::ToggleRollUp(b), Seen { rolled: Some(false), ..seen() }));
    assert_eq!(e, vec![Effect::RollWindow { host: a, rolled: true }, Effect::ScheduleSave]);
    assert!(state.fence(a).unwrap().rolled_up);
    assert!(effects(state.handle(Command::ToggleRollUp(b), seen())).is_empty());
    let e = effects(state.handle(Command::CommitExpanded(a), seen()));
    assert_eq!(e.len(), 3);
    assert!(!state.fence(a).unwrap().rolled_up);
}

#[test]
fn bounds_are_stored() {
    let mut state = test_state();
    let a = state.fences()[0].id;
    let rect = Rect { left: 0, top: 0, right: 1, bottom: 1 };
    let e = effects(state.handle(
        Command::FenceBoundsChanged { fence: a, rect },
        Seen { geometry: Some(geo(77.0)), rolled: Some(false), ..seen() },
    ));
    assert_eq!(e, vec![Effect::ScheduleSave, Effect::FollowHeight(a)]);
    assert_eq!(state.fence(a).unwrap().geometry.x, dip(77.0));
}

#[test]
fn a_second_click_on_a_column_reverses() {
    let mut state = test_state();
    let a = state.fences()[0].id;
    let click = |state: &mut AppState| {
        effects(state.handle(Command::SortColumn { fence: a, sort: SortMode::Size }, seen()))
    };
    assert_eq!(click(&mut state), vec![Effect::RefreshFence(a), Effect::ScheduleSave]);
    let v = state.fence(a).unwrap().view;
    assert_eq!((v.sort, v.reverse), (SortMode::Size, false));
    click(&mut state);
    assert!(state.fence(a).unwrap().view.reverse);
    assert!(effects(state.handle(
        Command::SortColumn { fence: 123, sort: SortMode::Size },
        seen()
    ))
    .is_empty());
}

#[test]
fn fences_merge_into_the_slot() {
    let mut state = test_state();
    let (a, b, c) = (state.fences()[0].id, state.fences()[1].id, state.fences()[2].id);
    state.attach_tab(b, a);
    let e = effects(state.handle(
        Command::MergeFence { fence: c, into: 5, x: 0 },
        Seen { host: Some(a), slot: Some(1), ..seen() },
    ));
    assert_eq!(e[0], Effect::ClearMergeHints);
    assert_eq!(e.len(), 5);
    assert_eq!(state.tabs_of(a), vec![a, c, b]);
    assert_eq!(state.active_tab_of(a), c);
    let e = effects(state.handle(Command::MergeFence { fence: c, into: 5, x: 0 }, seen()));
    assert_eq!(e, vec![Effect::ClearMergeHints]);
}

#[test]
fn drops_are_split_between_the_desktop_and_elsewhere() {
    let mut state = test_state();
    let (a, b) = (state.fences()[0].id, state.fences()[1].id);
    let item = add_item(&mut state, a, "a");
    let here = "C:/Users/Me/Desktop/a.txt".to_string();
    let there = "D:/other.txt".to_string();
    let e = effects(state.handle(
        Command::ExternalDrop {
            paths: vec![here.clone(), there.clone()],
            to: b,
            mode: TransferMode::Move,
        },
        Seen { on_desktop: vec![true, false], ..seen() },
    ));
    assert!(e.contains(&Effect::BringToDesktop {
        paths: vec![there.clone()],
        to: b,
        copy: false
    }));
    assert!(e.contains(&Effect::MoveItems { items: vec![item], to: b }));
    let e = effects(state.handle(
        Command::ExternalDrop { paths: vec![there.clone()], to: b, mode: TransferMode::Link },
        Seen { on_desktop: vec![false], ..seen() },
    ));
    assert!(e.contains(&Effect::MakeShortcuts { paths: vec![there], to: b }));
}

#[test]
fn other_commands_have_their_effects() {
    let mut state = test_state();
    let a = state.fences()[0].id;
    let inbox = state.inbox_id().unwrap();
    assert_eq!(
        effects(state.handle(Command::MoveItemsToInbox { items: vec![4] }, seen())),
        vec![Effect::FileFromInbox { items: vec![4], inbox }, Effect::ScheduleSave]
    );
    assert_eq!(
        effects(state.handle(Command::Quit, seen())),
        vec![Effect::SaveNow, Effect::RestoreDesktopIcons, Effect::PostQuit]
    );
    assert_eq!(
        effects(state.handle(Command::WindowGone(4), Seen { settings_window: Some(4), ..seen() })),
        vec![Effect::ForgetSettingsWindow]
    );
    assert!(effects(state.handle(Command::WindowGone(5), seen())).is_empty());
    assert_eq!(
        effects(state.handle(Command::FadeOutDone(4), seen())),
        vec![Effect::Destroy(4)]
    );
    assert_eq!(
        effects(state.handle(Command::MergeHint { target: 3, x: 4 }, seen())),
        vec![Effect::MergeHint { target: 3, x: 4 }]
    );
    state.handle(Command::RenameFence { fence: a, title: "Renamed".to_string() }, seen());
    assert_eq!(state.fence(a).unwrap().title, "Renamed");
    assert!(matches!(state.handle(Command::TogglePeek, seen()), Handled::Delegate(Command::TogglePeek)));
    let e = effects(state.handle(Command::ApplyRulesNow, seen()));
    assert_eq!(e[2], Effect::TellMoved(0));
}

#[test]
fn windows_are_made_for_hosts_and_closed_for_tabs() {
    let mut state = test_state();
    let (a, b) = (state.fences()[0].id, state.fences()[1].id);
    state.attach_tab(b, a);
    let open = vec![
        OpenWindow { fence: a, alive: true },
        OpenWindow { fence: b, alive: true },
    ];
    let plan = state.plan_windows(&open);
    assert_eq!(plan.gone, vec![b]);
    assert_eq!(plan.hosts.len(), 3);
    assert!(!plan.hosts[0].create);
    assert_eq!(plan.hosts[0].shown, b);
    assert!(plan.hosts[1].create);
    let view = state.window_view(b).unwrap();
    assert_eq!((view.host, view.shown), (a, b));
    assert!(state.window_view(777).is_none());
    assert!(state.refresh_of(a).host == a);
    assert_eq!(height_to_follow(10, Some(20)), Some(20));
    assert_eq!(height_to_follow(20, Some(20)), None);
    assert_eq!(height_to_follow(20, None), None);
}

#[test]
fn new_names_are_numbered_from_two() {
    assert_eq!(name_to_try("New folder", "", 0), "New folder");
    assert_eq!(name_to_try("New", ".txt", 1), "New (2).txt");
    assert_eq!(name_to_try("New", ".txt", 9), "New (10).txt");
}

#[test]
fn expected_files_are_taken_once() {
    let mut state = test_state();
    let (a, b) = (state.fences()[0].id, state.fences()[1].id);
    let item = add_item(&mut state, a, "new");
    let route = |path: &str, since: u64| PendingRoute {
        fence: b,
        path: path.to_string(),
        since,
        rename: true,
    };
    let mut routes = vec![
        route("C:/Users/Me/Desktop/new.txt", 100),
        route("C:/Users/Me/Desktop/late.txt", 100),
        route("C:/Users/Me/Desktop/old.txt", 0),
    ];
    let landed = state.take_landed(&mut routes, 110);
    assert_eq!(landed.len(), 1);
    assert_eq!((landed[0].item, landed[0].fence, landed[0].rename), (item, b, true));
    assert_eq!(routes.len(), 1);
    assert_eq!(routes[0].path, "C:/Users/Me/Desktop/late.txt");
}

#[test]
fn renames_are_checked() {
    let mut state = test_state();
    let a = state.fences()[0].id;
    let item = add_item(&mut state, a, "x");
    assert!(matches!(state.check_rename(item, "  "), RenameRequest::BadName));
    assert!(matches!(state.check_rename(item, " x "), RenameRequest::Ignored));
    assert!(matches!(state.check_rename(99, "y"), RenameRequest::Ignored));
    assert!(matches!(state.check_rename(item, "a/b"), RenameRequest::BadName));
    match state.check_rename(item, " good ") {
        RenameRequest::Rename { path, name } => {
            assert_eq!(path, "c:\\users\\me\\desktop\\x.txt");
            assert_eq!(name, "good");
        }
        _ => panic!("a good name"),
    }
    assert!(name_taken("C:/a.txt", "C:/b.txt", true));
    assert!(!name_taken("C:/a.txt", "c:\\A.txt", true));
    assert!(!name_taken("C:/a.txt", "C:/b.txt", false));
}

#[test]
fn items_are_planned_for_moves_and_launches() {
    let mut state = test_state();
    let (a, b) = (state.fences()[0].id, state.fences()[1].id);
    let item = add_item(&mut state, a, "x");
    match state.plan_move(&vec![item], b) {
        MoveItems::Among { portal, desktop, .. } => {
            assert!(portal.is_empty());
            assert_eq!(desktop, vec![item]);
        }
        MoveItems::IntoFolder(_) => panic!("not a folder"),
    }
    assert!(matches!(state.plan_launch(item), Launch::Execute(p) if p == "c:\\users\\me\\desktop\\x.txt"));
    assert!(matches!(state.plan_launch(4), Launch::Nothing));
    assert_eq!(
        state.paths_for(&vec![item, 4], Verb::Copy),
        vec!["c:\\users\\me\\desktop\\x.txt".to_string()]
    );
    assert_eq!(state.item_id_for_path("C:/Users/Me/Desktop/X.txt"), Some(item));
    let mut cut = CutMarks::put(&vec![item], true, 7);
    assert!(!cut.check(7));
    assert_eq!(cut.items, vec![item]);
    assert!(cut.check(8));
    assert!(cut.items.is_empty());
    let same = vec![Some("C:/d".to_string())];
    assert_eq!(plan_paste(&same, false, Some("C:/D")), Paste::Duplicate);
    assert_eq!(plan_paste(&same, false, Some("C:/e")), Paste::Copy);
    assert_eq!(plan_paste(&same, true, Some("C:/e")), Paste::Move);
}

#[test]
fn regular_work_is_due_when_it_should() {
    let mut state = test_state();
    let rules = &state.config.rules;
    assert!(!has_idle_rules(rules));
    assert!(!idle_rules_due(rules, false, None, 0));
    assert!(reads_desktop(false, true, true));
    let settings = &mut state.config.settings;
    settings.hide_real_icons = true;
    assert!(hides_icons(settings, false));
    assert!(!hides_icons(settings, true));
    assert!(!give_up_hiding(settings, false));
    assert!(give_up_hiding(settings, true));
    assert!(!settings.hide_real_icons);
    let e = entry("a.txt", Decision::Default(Target::Inbox));
    assert_eq!(e.size, 10);
}

#[test]
fn files_of_portals_go_to_the_desktop() {
    let mut state = test_state();
    let (a, b) = (state.fences()[0].id, state.fences()[1].id);
    let here = add_item(&mut state, a, "x");
    let mut there = state.item(here).unwrap().clone();
    there.id = 77;
    there.key = ItemKey::from_path("C:/Projects/y.txt");
    state.portal_items.insert(77, there);
    assert_eq!(state.portal_paths(&vec![here, 77, 78]), vec!["c:\\projects\\y.txt".to_string()]);
    let routes = new_routes(&vec!["C:/Users/Me/Desktop/y.txt".to_string()], b, 9, false);
    assert_eq!(routes.len(), 1);
    assert_eq!((routes[0].fence, routes[0].since, routes[0].rename), (b, 9, false));
    assert_eq!(state.shown_item(a, "c:/users/me/desktop/X.TXT"), Some(here));
    assert_eq!(state.shown_item(b, "c:/users/me/desktop/X.TXT"), None);
    assert_eq!(state.shown_item(5, "c:/users/me/desktop/X.TXT"), None);
    state.attach_tab(b, a);
    let start = state.rename_start(b, a, here);
    assert_eq!(start.switch, Some(a));
    assert_eq!(start.name, Some("x".to_string()));
    assert_eq!(state.rename_start(b, b, 5).name, None);
    assert_eq!(shortcut_kind("A.LNK"), Shortcut::Link);
    assert_eq!(shortcut_kind("a.url"), Shortcut::Url);
    assert_eq!(shortcut_kind("lnk"), Shortcut::Plain);
}

#[test]
fn the_regular_work_reads_the_desktop() {
    let mut state = test_state();
    let rounds = |special_items: bool, gave_up: bool| Rounds {
        was_unavailable: false,
        available_now: true,
        special_items,
        entries: vec![entry("a.txt", Decision::Default(Target::Inbox))],
        unavailable: false,
        rules_ran: None,
        clock: 0,
        now: 5,
        gave_up,
    };
    state.config.settings.hide_real_icons = true;
    let done = state.housekeeping(&rounds(false, false));
    assert!(!done.desktop_changed && !done.rules_ran && !done.hiding_off);
    assert!(state.item_by_path("C:/Users/Me/Desktop/a.txt").is_none());
    let done = state.housekeeping(&rounds(true, true));
    assert!(done.desktop_changed && done.hiding_off);
    assert!(state.item_by_path("C:/Users/Me/Desktop/a.txt").is_some());
    assert!(!state.config.settings.hide_real_icons);
    assert!(!state.housekeeping(&rounds(true, true)).hiding_off);
}
