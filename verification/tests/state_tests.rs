use pecofence::clock::{new_id, now_unix, unix_seconds};
use pecofence::dip::Dip;
use pecofence::fence_ops::default_fences;
use pecofence::filing::{idle_days, DesktopEntry};
use pecofence::layouts::Setup;
use pecofence::model::{
    Anchor, AssignedBy, Cond, Config, Decision, FenceId, FenceKind, IconKey, Item, ItemId, ItemKey,
    MonitorIdentity, NormGeometry, Origin, Rule, RuleSet, SortMode, Target, ViewLayout,
};
use pecofence::paths::{dir_prefix, ext_of_key, filter_folder_paths, is_inside, DroppedPath};
use pecofence::portals::FolderEntry;
use pecofence::records::RenamedFile;
use pecofence::rules::has_idle_cond;
use pecofence::state::{work_area_at, AppState, WorkArea};
use pecofence::store::{ConfigStore, FreshReason, LoadOutcome};
use pecofence::sync::{display_name, file_stem};
use pecofence::tables::Catalog;
use std::collections::HashMap;

fn dip(x: f32) -> Dip {
    Dip { bits: x.to_bits() }
}

fn geo(x: f32) -> NormGeometry {
    NormGeometry {
        monitor: "test".to_string(),
        x: dip(x),
        y: dip(0.0),
        w: dip(300.0),
        h: dip(200.0),
        work_w: dip(1920.0),
        work_h: dip(1040.0),
        anchor: Anchor::LeftTop,
    }
}

fn work() -> WorkArea {
    WorkArea {
        device_path: "test".to_string(),
        left: 0,
        top: 0,
        right: 1920,
        bottom: 1040,
        dpi: 96,
        mon_left: 0,
        mon_top: 0,
        mon_right: 1920,
        mon_bottom: 1040,
    }
}

fn setup() -> Setup {
    Setup {
        fingerprint: vec![MonitorIdentity {
            device_path: "test".to_string(),
            work_dip: [dip(1920.0), dip(1040.0)],
            dpi: 96,
        }],
        fences: default_fences(
            ["Programs", "Folders", "Files", "Desktop"],
            [geo(0.0), geo(320.0), geo(640.0), geo(960.0)],
            48,
        ),
        rules: RuleSet { keep_updated: true, list: vec![] },
    }
}

fn test_state() -> AppState {
    let mut state = AppState {
        config: Config::default(),
        store: ConfigStore::new("state-test".to_string()),
        layout: 0,
        dirty: false,
        catalog: Catalog::new(),
        portal_items: HashMap::new(),
        portal_members: HashMap::new(),
        portal_cwd: HashMap::new(),
        work_areas: vec![work()],
        first_run: true,
        recovered_from: None,
    };
    state.ensure_layout(setup());
    state
}

fn add_item(state: &mut AppState, fence: FenceId, name: &str) -> ItemId {
    let item = Item {
        id: new_id(),
        key: ItemKey::from_path(&format!("C:/Users/Me/Desktop/{name}.txt")),
        origin: Origin::UserDesktop,
        display_name: name.to_string(),
        file_id: None,
        mtime: 1,
        is_folder: false,
        attrs: 0,
        icon_key: IconKey::ByExt(".txt".to_string()),
        orphaned_since: None,
        size: 0,
        open_count: 0,
        last_opened: None,
    };
    let id = item.id;
    state.catalog.insert(item.key.clone(), id);
    state.config.items.insert(id, item);
    state.config.assign(0, id, fence, AssignedBy::User);
    id
}

fn names(state: &AppState, fence: FenceId) -> Vec<String> {
    let f = state.fence(fence).unwrap();
    state.items_of(f).iter().map(|i| i.display_name.clone()).collect()
}

fn entry(name: &str, ruling: Decision) -> DesktopEntry {
    DesktopEntry {
        path: format!("C:/Users/Me/Desktop/{name}"),
        file_name: name.to_string(),
        shell_name: None,
        origin: Origin::UserDesktop,
        mtime: 5,
        is_folder: false,
        attributes: 32,
        size: 10,
        icon_key: IconKey::ByExt(".txt".to_string()),
        ruling,
    }
}

fn folder_entry(id: ItemId, path: &str, name: &str) -> FolderEntry {
    FolderEntry {
        id,
        path: path.to_string(),
        file_name: name.to_string(),
        shell_name: None,
        mtime: 3,
        is_folder: false,
        attributes: 0,
        size: 4,
        icon_key: IconKey::ByExt(".txt".to_string()),
    }
}

#[test]
fn host_detach_through_app_state_keeps_content_and_can_restore() {
    let mut state = test_state();
    let (a, b, c) = (state.fences()[0].id, state.fences()[1].id, state.fences()[2].id);
    add_item(&mut state, a, "first");
    add_item(&mut state, b, "second");
    add_item(&mut state, c, "third");
    state.attach_tab(b, a);
    state.attach_tab(c, a);
    let before = state.fences().to_vec();
    assert!(state.fence(a).unwrap().tab_host.is_none());
    state.dirty = false;
    let change = state.detach_tab(a).expect("the host must be detachable too");
    assert!(state.dirty);
    assert_eq!(change.remaining_host, b);
    assert_eq!(state.host_of(a), a);
    assert_eq!(state.host_of(c), b);
    assert_eq!(state.active_tab_of(b), c);
    assert_eq!(names(&state, a), vec!["first"]);
    assert_eq!(names(&state, b), vec!["second"]);
    assert_eq!(names(&state, c), vec!["third"]);
    state.dirty = false;
    assert!(state.cancel_tab_detach(&change));
    assert!(state.dirty);
    assert_eq!(state.fences().as_slice(), before.as_slice());
}

#[test]
fn workspace_count_includes_portals_deduplicates_paths_and_excludes_orphans() {
    let mut state = test_state();
    let fence = state.fences()[0].id;
    let desktop = add_item(&mut state, fence, "desktop");
    let orphan = add_item(&mut state, fence, "gone");
    state.config.items.get_mut(&orphan).unwrap().orphaned_since = Some(1);
    let mut mirrored = state.config.items[&desktop].clone();
    mirrored.id = new_id();
    state.portal_items.insert(mirrored.id, mirrored.clone());
    let mut portal_only = mirrored;
    portal_only.id = new_id();
    portal_only.key = ItemKey::from_path("C:/Projects/portal-only.txt");
    let portal_id = portal_only.id;
    state.portal_items.insert(portal_id, portal_only);
    assert_eq!(state.workspace_item_count(), 2);
    state.portal_items.remove(&portal_id);
    assert_eq!(state.workspace_item_count(), 1);
}

#[test]
fn portal_navigation_preserves_folder_case_from_folded_item_keys() {
    let root = "C:/portal-root";
    let nested = format!("{root}/Nested Target/日本語 Folder");
    let mut state = test_state();
    let fence = state.new_portal_fence(root, "portal-root", Some(geo(0.0))).unwrap();
    let root_title = state.fence(fence).unwrap().title.clone();
    let folded = nested.to_lowercase();
    assert!(state.portal_enter(fence, &folded, true, nested.clone()));
    assert_eq!(
        state.display_title(state.fence(fence).unwrap(), Some("日本語 Folder")),
        "日本語 Folder"
    );
    let parent = format!("{root}/Nested Target");
    assert!(state.portal_up(fence, Some((parent.clone(), true, parent))));
    assert_eq!(
        state.display_title(state.fence(fence).unwrap(), Some("Nested Target")),
        "Nested Target"
    );
    assert!(state.portal_up(fence, Some((root.to_string(), true, root.to_string()))));
    assert_eq!(state.display_title(state.fence(fence).unwrap(), None), root_title);
    assert!(!state.portal_up(fence, None));
}

#[test]
fn reorder_items_places_before_display_index() {
    let mut state = test_state();
    let fence = state.fences()[0].id;
    assert_eq!(state.fence(fence).unwrap().view.sort, SortMode::Manual);
    let a = add_item(&mut state, fence, "a");
    let b = add_item(&mut state, fence, "b");
    let c = add_item(&mut state, fence, "c");
    assert_eq!(names(&state, fence), ["a", "b", "c"]);
    assert!(state.reorder_items(fence, &vec![c], 0));
    assert_eq!(names(&state, fence), ["c", "a", "b"]);
    assert!(!state.reorder_items(fence, &vec![a, b], 3));
    assert_eq!(names(&state, fence), ["c", "a", "b"]);
    assert!(!state.reorder_items(fence, &vec![c], 1));
    assert!(state.reorder_items(fence, &vec![b], 0));
    assert_eq!(names(&state, fence), ["b", "c", "a"]);
    state.set_reverse(fence, true);
    assert_eq!(names(&state, fence), ["a", "c", "b"]);
    assert!(state.reorder_items(fence, &vec![b], 0));
    assert_eq!(names(&state, fence), ["b", "a", "c"]);
    state.set_sort(fence, SortMode::Name);
    assert!(!state.reorder_items(fence, &vec![a], 0));
}

#[test]
fn dir_prefix_tolerates_drive_roots() {
    assert_eq!(dir_prefix("d:\\"), "d:\\");
    assert_eq!(dir_prefix("d:\\users"), "d:\\users\\");
    assert!("d:\\users".starts_with(&dir_prefix("d:\\")));
    assert!(!"d:\\usersx".starts_with(&dir_prefix("d:\\users")));
}

#[test]
fn paths_know_what_they_hold() {
    assert!(is_inside("d:\\users\\a", "d:\\users"));
    assert!(!is_inside("d:\\usersx", "d:\\users"));
    assert_eq!(ext_of_key(&ItemKey::from_path("C:/a/Report.DOCX")), "docx");
    assert_eq!(ext_of_key(&ItemKey::from_path("C:/a/none")), "");
    let file = |p: &str, parent: &str| DroppedPath {
        path: p.to_string(),
        parent: Some(parent.to_string()),
        namespace: false,
    };
    let all = vec![
        file("C:\\F\\x.txt", "C:\\F"),
        file("C:\\F", "C:\\"),
        file("C:\\a.txt", "C:\\"),
        DroppedPath { path: "::{bin}".to_string(), parent: None, namespace: true },
    ];
    let into = filter_folder_paths(&all, "c:/f");
    assert_eq!(into.len(), 1);
    assert_eq!(into[0].path, "C:\\a.txt");
    let below = filter_folder_paths(&all, "C:/F/Sub");
    assert_eq!(below.len(), 2);
    assert_eq!(below[0].path, "C:\\F\\x.txt");
}

#[test]
fn clocks_before_the_epoch_read_zero() {
    assert_eq!(unix_seconds(None), 0);
    assert_eq!(unix_seconds(Some(12)), 12);
    assert!(now_unix() > 1_600_000_000);
}

#[test]
fn idle_days_count_from_the_later_use() {
    assert_eq!(idle_days(86_400, None, 3 * 86_400), Some(2));
    assert_eq!(idle_days(86_400, Some(2 * 86_400), 3 * 86_400), Some(1));
    assert_eq!(idle_days(0, None, 100), None);
    assert_eq!(idle_days(500, None, 100), Some(0));
}

#[test]
fn new_files_are_filed_and_missing_ones_kept_for_a_week() {
    let mut state = test_state();
    let target = state.fences()[0].id;
    state.config.rules.keep_updated = true;
    let entries = vec![
        entry("a.txt", Decision::Route { target: Target::Fence(target), rule: 4 }),
        entry("b.txt", Decision::Default(Target::Inbox)),
    ];
    let report = state.sync_desktop_at(&entries, 1000);
    assert_eq!((report.added, report.removed, report.updated), (2, 0, 0));
    assert!(report.changed());
    let a = state.item_by_path("c:\\users\\me\\desktop\\A.TXT").unwrap();
    assert_eq!(state.config.fence_of_item(0, a), Some(target));
    let b = state.item_by_path("C:/Users/Me/Desktop/b.txt").unwrap();
    assert_eq!(state.config.fence_of_item(0, b), state.inbox_id());
    let again = state.sync_desktop_at(&entries, 1001);
    assert!(!again.changed());
    let gone = state.sync_desktop_at(&vec![], 2000);
    assert_eq!(gone.removed, 2);
    assert_eq!(state.item(a).unwrap().orphaned_since, Some(2000));
    assert_eq!(names(&state, target).len(), 0);
    state.sync_desktop_at(&vec![], 2000 + 604_801);
    assert!(state.item(a).is_none());
}

#[test]
fn rules_that_are_off_send_to_the_inbox() {
    let mut state = test_state();
    state.config.rules.keep_updated = false;
    let target = state.fences()[0].id;
    let e = entry("a.txt", Decision::Route { target: Target::Fence(target), rule: 4 });
    assert_eq!(state.route_decision(&e), Decision::Default(Target::Inbox));
    state.config.rules.keep_updated = true;
    assert_eq!(state.route_decision(&e), Decision::Route { target: Target::Fence(target), rule: 4 });
    let inbox = state.inbox_id().unwrap();
    assert_eq!(
        state.target_fence(Decision::Default(Target::Inbox)).map(|t| t.0),
        Some(inbox)
    );
    assert_eq!(state.target_fence(Decision::Skip), None);
    let rule = |c: Cond| Rule {
        id: 1,
        template: None,
        all_of: vec![c],
        target: Target::Inbox,
    };
    assert!(has_idle_cond(&rule(Cond::IdleDays { days: 3 })));
    assert!(!has_idle_cond(&rule(Cond::Facts)));
}

#[test]
fn names_of_files_lose_their_extension() {
    assert_eq!(file_stem("a.b.txt"), "a.b");
    assert_eq!(file_stem(".profile"), ".profile");
    assert_eq!(display_name(&None, "Report.docx", false), "Report");
    assert_eq!(display_name(&None, "v1.2", true), "v1.2");
    assert_eq!(display_name(&Some("Shown".to_string()), "x.txt", false), "Shown");
}

#[test]
fn opened_items_are_counted() {
    let mut state = test_state();
    let fence = state.fences()[0].id;
    let a = add_item(&mut state, fence, "a");
    state.note_opened_at(a, 77);
    state.note_opened_at(a, 78);
    let it = state.item(a).unwrap();
    assert_eq!((it.open_count, it.last_opened), (2, Some(78)));
    state.note_opened(a);
    assert_eq!(state.item(a).unwrap().open_count, 3);
    assert!(!state.is_portal_item(a));
}

#[test]
fn renamed_files_keep_their_item() {
    let mut state = test_state();
    let fence = state.fences()[0].id;
    let a = add_item(&mut state, fence, "old");
    let new = RenamedFile {
        path: "C:/Users/Me/Desktop/New.md".to_string(),
        file_name: Some("New.md".to_string()),
        shell_name: None,
        is_folder: Some(false),
        icon_key: IconKey::ByExt(".md".to_string()),
    };
    assert!(state.rename_item("C:/Users/Me/Desktop/OLD.txt", &new));
    assert_eq!(state.item_by_path("c:/users/me/desktop/new.md"), Some(a));
    assert_eq!(state.item_by_path("C:/Users/Me/Desktop/old.txt"), None);
    assert_eq!(state.item(a).unwrap().display_name, "New");
    assert!(!state.rename_item("C:/nothing.txt", &new));
}

#[test]
fn a_moved_desktop_takes_its_items_along() {
    let mut state = test_state();
    let fence = state.fences()[0].id;
    let a = add_item(&mut state, fence, "a");
    assert_eq!(state.migrate_desktop_path("C:/Users/Me/Desktop"), 0);
    assert_eq!(state.migrate_desktop_path("c:/users/me/desktop/"), 0);
    assert_eq!(state.migrate_desktop_path("D:/OneDrive/Desktop"), 1);
    assert_eq!(
        state.item(a).unwrap().key.as_path(),
        Some("d:\\onedrive\\desktop\\a.txt")
    );
    assert_eq!(state.item_by_path("D:/OneDrive/Desktop/a.txt"), Some(a));
}

#[test]
fn rules_leave_what_the_user_placed() {
    let mut state = test_state();
    let (first, second) = (state.fences()[0].id, state.fences()[1].id);
    let mine = add_item(&mut state, first, "a");
    let ruled = add_item(&mut state, first, "b");
    state.config.assign_at(0, ruled, second, AssignedBy::Rule(1), 1);
    let third = state.fences()[2].id;
    let to_third = Decision::Route { target: Target::Fence(third), rule: 9 };
    let entries = vec![entry("a.txt", to_third), entry("b.txt", to_third)];
    let moved = state.apply_rules_all(&entries);
    assert_eq!(state.config.fence_of_item(0, mine), Some(first));
    assert_eq!(state.config.fence_of_item(0, ruled), Some(third));
    assert_eq!(moved, 1);
    let touched = state.apply_rules_to(&vec![mine], &entries);
    assert_eq!(state.config.fence_of_item(0, mine), Some(third));
    assert!(touched.contains(&third));
}

#[test]
fn portals_show_their_folder() {
    let mut state = test_state();
    let p = state.new_portal_fence("C:/Projects", "Projects", Some(geo(0.0))).unwrap();
    assert!(state.is_portal(p));
    assert_eq!(state.portals(), vec![p]);
    assert_eq!(state.portal_root(p), Some("C:/Projects"));
    assert_eq!(state.portal_path(p), Some("C:/Projects"));
    let entries = vec![folder_entry(41, "C:/Projects/b.txt", "b.txt"), folder_entry(42, "C:/Projects/a.txt", "a.txt")];
    assert!(state.refresh_portal(p, &entries));
    assert!(!state.refresh_portal(p, &entries));
    assert_eq!(names(&state, p), ["a", "b"]);
    assert!(state.is_portal_item(41));
    assert_eq!(state.portal_of_item(42), Some(p));
    assert!(state.portal_enter(p, "C:/Projects/Sub", true, "C:/Projects/Sub".to_string()));
    assert!(state.portal_navigated(p));
    assert!(!state.portal_enter(p, "C:/Elsewhere", true, "C:/Elsewhere".to_string()));
    assert!(!state.portal_enter(p, "C:/Projects/x.txt", false, "C:/Projects/x.txt".to_string()));
    state.portal_check(p, false);
    assert!(!state.portal_navigated(p));
    assert!(!state.portal_home(p));
    let evicted = state.evict_portal_members(p);
    assert_eq!(evicted.len(), 2);
    assert!(!state.is_portal_item(41));
    assert_eq!(state.refresh_all_portals(&vec![entries]), vec![p]);
    assert!(state.delete_fence(p));
    assert!(state.portals().is_empty());
}

#[test]
fn deleted_fences_give_their_items_back() {
    let mut state = test_state();
    let f = state.new_fence("Mine", Some(geo(5.0))).unwrap();
    let a = add_item(&mut state, f, "a");
    let inbox = state.inbox_id().unwrap();
    assert!(!state.delete_fence(inbox));
    assert!(!state.delete_fence(12345));
    assert!(state.delete_fence(f));
    assert_eq!(state.config.fence_of_item(0, a), Some(inbox));
    assert!(state.fence(f).is_none());
}

#[test]
fn templates_are_added_once() {
    let mut state = test_state();
    let rule = || Rule {
        id: 3,
        template: Some("images".to_string()),
        all_of: vec![Cond::Facts],
        target: Target::Inbox,
    };
    let first = state.add_template("images", "Images", Some(geo(0.0)), rule());
    let id = first.unwrap();
    assert_eq!(state.fence(id).unwrap().title, "Images");
    assert_eq!(state.config.rules.list.len(), 1);
    assert_eq!(state.config.rules.list[0].target, Target::Fence(id));
    let second = state.add_template("images", "Images", Some(geo(0.0)), rule());
    assert_eq!(second, Err(Some(id)));
}

#[test]
fn grouping_by_date_sorts_by_date() {
    let mut state = test_state();
    let f = state.fences()[0].id;
    state.set_group_by_date(f, true);
    let v = state.fence(f).unwrap().view;
    assert!(v.group_by_date);
    assert_eq!(v.sort, SortMode::Date);
    state.set_layout(f, ViewLayout::Details);
    state.set_icon_size(f, 64);
    let v = state.fence(f).unwrap().view;
    assert_eq!((v.layout, v.icon_size), (ViewLayout::Details, 64));
    state.set_locked(f, true);
    assert!(state.fence(f).unwrap().locked);
    assert_eq!(state.toggle_rolled(f), Some(true));
    assert_eq!(state.toggle_rolled(12345), None);
    state.rename_fence(f, "New title");
    assert_eq!(state.fence(f).unwrap().title, "New title");
}

#[test]
fn saving_clears_the_mark() {
    let mut state = test_state();
    state.mark_dirty();
    assert!(state.is_dirty());
    assert!(!state.note_saved(false));
    assert!(state.is_dirty());
    assert!(state.note_saved(true));
    assert!(!state.is_dirty());
}

#[test]
fn screens_are_found_by_point() {
    let mut second = work();
    second.left = 1920;
    second.right = 3840;
    second.mon_left = 1920;
    second.mon_right = 3840;
    let areas = vec![work(), second];
    assert_eq!(work_area_at(&areas, 10, 10), Some(0));
    assert_eq!(work_area_at(&areas, 2000, 10), Some(1));
}

#[test]
fn snapshots_come_back_and_can_be_undone() {
    let mut state = test_state();
    let f = state.fences()[0].id;
    state.rename_fence(f, "Before");
    state.save_snapshot_at("  first  ", "Snapshot", 11, 100);
    assert_eq!(state.config.snapshots[0].name, "first");
    state.save_snapshot_at("   ", "Snapshot", 12, 101);
    assert_eq!(state.config.snapshots[1].name, "Snapshot");
    state.rename_fence(f, "After");
    assert!(state.restore_snapshot_with_backup(11, "undo", "Snapshot", setup()));
    assert_eq!(state.fence(f).unwrap().title, "Before");
    let undo = state.config.snapshots.iter().find(|s| s.name == "undo").unwrap().id;
    assert!(state.restore_snapshot_with_backup(undo, "again", "Snapshot", setup()));
    assert_eq!(state.fence(f).unwrap().title, "After");
    assert!(!state.restore_snapshot_with_backup(999, "x", "Snapshot", setup()));
    assert!(state.delete_snapshot(11));
    assert!(!state.delete_snapshot(11));
    for i in 0..30 {
        state.save_snapshot_at("more", "Snapshot", 1000 + i, 200);
    }
    assert_eq!(state.config.snapshots.len(), 20);
    let id = state.save_snapshot("now", "Snapshot");
    assert_eq!(state.config.snapshots.last().unwrap().id, id);
}

#[test]
fn replacing_the_configuration_keeps_snapshots() {
    let mut state = test_state();
    let fence = state.fences()[0].id;
    let a = add_item(&mut state, fence, "a");
    state.save_snapshot_at("kept", "Snapshot", 1, 5);
    let mut other = Config::default();
    other.layouts = state.config.layouts.clone();
    state.replace_config(other, setup());
    assert_eq!(state.config.snapshots.len(), 1);
    assert!(state.item(a).is_some());
    assert_eq!(state.item_by_path("C:/Users/Me/Desktop/a.txt"), Some(a));
}

#[test]
fn loading_notes_where_it_came_from() {
    let fresh = AppState::load(
        LoadOutcome::Fresh(Config::default(), FreshReason::FirstRun),
        ConfigStore::new("d".to_string()),
        vec![work()],
        setup(),
    );
    assert!(fresh.first_run);
    assert_eq!(fresh.recovered_from, None);
    assert_eq!(fresh.fences().len(), 4);
    let config = fresh.config;
    let back = AppState::load(
        LoadOutcome::Recovered(config, "d/config.json.bak".to_string()),
        ConfigStore::new("d".to_string()),
        vec![work()],
        setup(),
    );
    assert!(!back.first_run);
    assert_eq!(back.recovered_from, Some("d/config.json.bak".to_string()));
    assert_eq!(back.device_paths(), vec!["test".to_string()]);
}

#[test]
fn items_move_by_hand() {
    let mut state = test_state();
    let (first, second) = (state.fences()[0].id, state.fences()[1].id);
    let a = add_item(&mut state, first, "a");
    let b = add_item(&mut state, first, "b");
    assert_eq!(state.move_items(&vec![a, b], second), 2);
    assert_eq!(state.move_items(&vec![a], second), 0);
    assert_eq!(names(&state, second), ["a", "b"]);
    assert_eq!(state.fence(first).unwrap().kind, FenceKind::Virtual);
}

#[test]
fn namespace_items_are_listed_first() {
    let mut state = test_state();
    let fence = state.fences()[0].id;
    let a = add_item(&mut state, fence, "a");
    let bin = add_item(&mut state, fence, "zbin");
    let it = state.config.items.get_mut(&bin).unwrap();
    it.origin = Origin::Namespace;
    it.key = ItemKey::from_path("::{645FF040-5081-101B-9F08-00AA002F954E}");
    state.set_sort(fence, SortMode::Name);
    assert_eq!(names(&state, fence), ["zbin", "a"]);
    assert!(state.item(a).is_some());
}

#[test]
fn names_sort_by_their_numbers() {
    let mut state = test_state();
    let fence = state.fences()[0].id;
    for n in ["file10", "File2", "file1"] {
        add_item(&mut state, fence, n);
    }
    state.set_sort(fence, SortMode::Name);
    assert_eq!(names(&state, fence), ["file1", "File2", "file10"]);
    state.set_reverse(fence, true);
    assert_eq!(names(&state, fence), ["file10", "File2", "file1"]);
}

#[test]
fn swapping_screens_twice_restores_them() {
    let mut state = test_state();
    let before = state.fences().to_vec();
    let placed: Vec<NormGeometry> = before
        .iter()
        .map(|f| {
            let mut g = f.geometry.clone();
            g.monitor = "other".to_string();
            g
        })
        .collect();
    let n = state.swap_monitors("test", "other", &placed);
    assert_eq!(n, before.len());
    assert!(state.fences().iter().all(|f| f.geometry.monitor == "other"));
    let back: Vec<NormGeometry> = before.iter().map(|f| f.geometry.clone()).collect();
    assert_eq!(state.swap_monitors("test", "other", &back), before.len());
    assert_eq!(state.fences().as_slice(), before.as_slice());
}

#[test]
fn a_drive_does_not_go_into_a_folder_of_its_own() {
    let dropped = |path: &str| DroppedPath {
        path: path.to_string(),
        parent: None,
        namespace: false,
    };
    let all = vec![dropped("C:\\"), dropped("D:\\b.txt")];
    let into = filter_folder_paths(&all, "C:\\Users\\me");
    assert_eq!(into, vec![dropped("D:\\b.txt")]);
}

#[test]
fn attaching_a_tab_again_changes_nothing() {
    let mut state = test_state();
    let ids: Vec<FenceId> = state.fences().iter().map(|f| f.id).collect();
    assert!(state.attach_tab(ids[1], ids[0]));
    assert_eq!(state.active_tab_of(ids[0]), ids[1]);
    state.set_active_tab(ids[0], ids[0]);
    state.dirty = false;
    assert!(!state.attach_tab(ids[1], ids[0]));
    assert!(!state.attach_tab(ids[0], ids[1]));
    assert_eq!(state.active_tab_of(ids[0]), ids[0]);
    assert!(!state.dirty);
    assert!(state.attach_tab(ids[2], ids[1]));
    assert_eq!(state.host_of(ids[2]), ids[0]);
    assert!(!state.attach_tab(ids[2], ids[1]));
}

#[test]
fn tabs_in_a_circle_are_windows_again_after_a_deletion() {
    let mut state = test_state();
    let ids: Vec<FenceId> = state.fences().iter().map(|f| f.id).collect();
    for f in &mut state.config.layouts[0].fences {
        if f.id == ids[0] {
            f.tab_host = Some(ids[1]);
        } else if f.id == ids[1] {
            f.tab_host = Some(ids[0]);
        }
    }
    assert!(state.delete_fence(ids[2]));
    assert_eq!(state.host_of(ids[0]), ids[0]);
    assert_eq!(state.host_of(ids[1]), ids[0]);
    assert_eq!(state.work_areas.len(), 1);
}

#[test]
fn reading_the_same_desktop_again_reports_nothing() {
    let mut state = test_state();
    let entries = vec![
        entry("a.txt", Decision::Skip),
        entry("b.txt", Decision::Skip),
    ];
    let first = state.sync_desktop_at(&entries, 100);
    assert_eq!((first.added, first.updated, first.removed), (2, 0, 0));
    assert!(!state.sync_desktop_at(&entries, 100).changed());
    let one = vec![entry("a.txt", Decision::Skip)];
    assert_eq!(state.sync_desktop_at(&one, 200).removed, 1);
    assert!(!state.sync_desktop_at(&one, 300).changed());
    let left: Vec<Option<i64>> = state.config.items.values().map(|i| i.orphaned_since).collect();
    assert!(left.contains(&None) && left.contains(&Some(200)));
}

#[test]
fn reversing_turns_a_list_round() {
    let mut state = test_state();
    let fence = state.fences()[0].id;
    for name in ["b10", "B9", "a"] {
        add_item(&mut state, fence, name);
    }
    state.set_sort(fence, SortMode::Name);
    assert_eq!(names(&state, fence), vec!["a", "B9", "b10"]);
    for f in &mut state.config.layouts[0].fences {
        f.view.reverse = true;
    }
    assert_eq!(names(&state, fence), vec!["b10", "B9", "a"]);
}

#[test]
fn attaching_takes_the_tabs_along() {
    let mut state = test_state();
    let ids: Vec<FenceId> = state.fences().iter().map(|f| f.id).collect();
    assert!(state.attach_tab(ids[1], ids[0]));
    assert!(state.attach_tab(ids[0], ids[2]));
    assert_eq!(state.host_of(ids[0]), ids[2]);
    assert_eq!(state.host_of(ids[1]), ids[2]);
    assert_eq!(state.active_tab_of(ids[2]), ids[0]);
    assert!(!state.normalize_tabs());
}
