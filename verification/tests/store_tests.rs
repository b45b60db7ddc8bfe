use pecofence::dates::{civil_from_days, date_of_seconds, format_date, today_yyyy_mm_dd, Date};
use pecofence::dip::Dip;
use pecofence::model::{
    Anchor, AppearanceOverride, Config, Fence, FenceContentSpec, FenceKind, ItemRef, Layout,
    NormGeometry, PanelSpec, AssignedBy, SCHEMA_VERSION,
};
use pecofence::snapshots::trim_text;
use pecofence::store::{
    after_primary, after_quarantine, backup_files, expired_backups, fallback_order,
    quarantine_name, recover, save_steps, sort_names, AfterPrimary, ConfigStore, FreshReason,
    LoadOutcome, PrimaryFile, SaveStep, SavedFiles, Tried,
};
use pecofence::text::{natural_cmp, natural_rank, Rank};
use pecofence::validate::{accept, is_blank, migrate, validate, ValidationError};
use std::cmp::Ordering;

fn dip(x: f32) -> Dip {
    Dip { bits: x.to_bits() }
}

fn sample() -> Config {
    let mut c = Config::default();
    c.layouts.push(Layout {
        fingerprint: vec![],
        fences: vec![Fence::new(
            "A",
            FenceKind::Inbox,
            NormGeometry {
                monitor: "m".to_string(),
                x: dip(1.0),
                y: dip(2.0),
                w: dip(300.0),
                h: dip(200.0),
                work_w: dip(1920.0),
                work_h: dip(1000.0),
                anchor: Anchor::LeftTop,
            },
        )],
    });
    c
}

fn load(primary: PrimaryFile, failure: Option<String>, others: Vec<Tried>) -> LoadOutcome {
    match after_primary(primary) {
        AfterPrimary::Done(outcome) => outcome,
        AfterPrimary::Quarantine(reason) => {
            let why = after_quarantine(reason, "dir/config.corrupt.json".to_string(), failure);
            recover(others, why)
        }
        AfterPrimary::TryOthers(why) => recover(others, why),
    }
}

#[test]
fn save_then_load_primary() {
    let store = ConfigStore::new("dir".to_string());
    let steps = save_steps(&sample(), false).unwrap();
    assert_eq!(
        steps,
        vec![
            SaveStep::CreateFolder,
            SaveStep::WriteTmp,
            SaveStep::TmpToPrimary,
            SaveStep::DailyBackup
        ]
    );
    assert!(matches!(
        load(PrimaryFile::Accepted(sample()), None, vec![]),
        LoadOutcome::Primary(_)
    ));
    assert_eq!(store.primary_path(), "dir/config.json");
    assert_ne!(store.tmp_path(), store.primary_path());
    assert_eq!(store.backups_dir(), "dir/backups");
}

#[test]
fn corrupt_primary_falls_back_to_bak() {
    let store = ConfigStore::new("dir".to_string());
    let order = fallback_order(store.bak_path(), &vec![]);
    assert_eq!(order, vec![store.bak_path()]);
    let tried = vec![Tried { path: order[0].clone(), config: Some(sample()) }];
    match load(PrimaryFile::Rejected("{ not json".to_string()), None, tried) {
        LoadOutcome::Recovered(c, from) => {
            assert_eq!(c.layouts[0].fences[0].title, "A");
            assert_eq!(from, store.bak_path());
        }
        _ => panic!("unexpected"),
    }
}

#[test]
fn nothing_usable_gives_fresh() {
    assert!(matches!(
        load(PrimaryFile::Missing, None, vec![]),
        LoadOutcome::Fresh(_, FreshReason::FirstRun)
    ));
}

#[test]
fn truncated_primary_quarantined_and_reason_visible() {
    match load(PrimaryFile::Rejected("EOF".to_string()), None, vec![]) {
        LoadOutcome::Fresh(_, FreshReason::CorruptPrimary { reason, quarantined }) => {
            assert!(!reason.is_empty());
            assert_eq!(quarantined, Some("dir/config.corrupt.json".to_string()));
        }
        _ => panic!("unexpected"),
    }
}

#[test]
fn syntax_error_primary_quarantined() {
    assert!(matches!(
        load(PrimaryFile::Rejected("{ bad json".to_string()), None, vec![]),
        LoadOutcome::Fresh(_, FreshReason::CorruptPrimary { quarantined: Some(_), .. })
    ));
    assert!(matches!(
        load(PrimaryFile::Rejected("{ bad json".to_string()), Some("busy".to_string()), vec![]),
        LoadOutcome::Fresh(_, FreshReason::CorruptPrimary { quarantined: None, .. })
    ));
}

#[test]
fn future_schema_version_reports_unsupported() {
    let mut cfg = Config::default();
    cfg.schema_version = SCHEMA_VERSION + 1;
    let version = cfg.schema_version;
    let error = accept(cfg).err().unwrap();
    match load(PrimaryFile::Rejected(error.message("", "")), None, vec![]) {
        LoadOutcome::Fresh(_, FreshReason::CorruptPrimary { reason, .. }) => {
            assert!(reason.contains(&format!(
                "unsupported schema version {} (supported: {SCHEMA_VERSION})",
                version
            )));
        }
        _ => panic!("unexpected"),
    }
}

#[test]
fn unreadable_primary_not_first_run() {
    assert!(matches!(
        load(PrimaryFile::Unreadable("denied".to_string()), None, vec![]),
        LoadOutcome::Fresh(_, FreshReason::UnreadablePrimary { .. })
    ));
}

#[test]
fn save_after_quarantine_writes_clean_primary() {
    let cfg = match load(PrimaryFile::Rejected("{".to_string()), None, vec![]) {
        LoadOutcome::Fresh(cfg, FreshReason::CorruptPrimary { quarantined: Some(_), .. }) => cfg,
        _ => panic!("unexpected"),
    };
    assert!(save_steps(&cfg, false).is_ok());
    assert!(matches!(load(PrimaryFile::Accepted(cfg), None, vec![]), LoadOutcome::Primary(_)));
}

#[test]
fn missing_everything_is_first_run() {
    let tried = vec![Tried { path: "dir/config.json.bak".to_string(), config: None }];
    assert!(matches!(
        load(PrimaryFile::Missing, None, tried),
        LoadOutcome::Fresh(_, FreshReason::FirstRun)
    ));
}

#[test]
fn current_product_data_wins_and_old_backup_only_installs_still_load() {
    let none = SavedFiles { primary: false, bak: false, backups: 0 };
    let bak = SavedFiles { primary: false, bak: true, backups: 1 };
    let damaged = SavedFiles { primary: true, bak: false, backups: 1 };
    assert!(bak.has_saved_data());
    assert!(!none.has_saved_data());
    let pick = |preferred: SavedFiles, legacy: SavedFiles| {
        ConfigStore::with_legacy("new".to_string(), preferred, "old".to_string(), legacy)
            .dir()
            .to_string()
    };
    assert_eq!(pick(none, bak), "old");
    assert_eq!(pick(damaged, bak), "new");
    assert_eq!(pick(none, none), "new");
}

#[test]
fn validation_rejects_two_inboxes() {
    let mut c = sample();
    let mut f = c.layouts[0].fences[0].clone();
    f.id = pecofence::clock::new_id();
    c.layouts[0].fences.push(f);
    assert!(validate(&c).is_err());
    assert_eq!(validate(&c), Err(ValidationError::Inboxes(2)));
    assert!(save_steps(&c, true).is_err());
}

#[test]
fn date_formatting_is_sane() {
    let s = today_yyyy_mm_dd();
    assert_eq!(s.len(), 10);
    assert!(s.starts_with("20"));
}

#[test]
fn dates_follow_the_calendar() {
    assert_eq!(civil_from_days(0), Date { year: 1970, month: 1, day: 1 });
    assert_eq!(civil_from_days(19_782), Date { year: 2024, month: 2, day: 29 });
    assert_eq!(date_of_seconds(1_709_251_199), Date { year: 2024, month: 2, day: 29 });
    assert_eq!(format_date(Date { year: 2024, month: 3, day: 1 }), "2024-03-01");
}

#[test]
fn each_fault_is_named() {
    let mut c = sample();
    assert_eq!(validate(&c), Ok(()));
    c.schema_version = 0;
    assert_eq!(validate(&c), Err(ValidationError::SchemaVersion(0)));
    assert_eq!(migrate(c).schema_version, SCHEMA_VERSION);

    let mut c = sample();
    c.layouts[0].fences[0].geometry.w = dip(f32::NAN);
    assert_eq!(validate(&c), Err(ValidationError::NonFiniteGeometry { layout: 0, fence: 0 }));
    c.layouts[0].fences[0].geometry.w = dip(0.5);
    let e = validate(&c).unwrap_err();
    assert_eq!(e, ValidationError::SizeOutOfRange { layout: 0, fence: 0 });
    assert_eq!(e.message("A", "0.5x200"), "fence A has out-of-range size 0.5x200");
    c.layouts[0].fences[0].geometry.w = dip(8192.0);
    assert_eq!(validate(&c), Ok(()));
    c.layouts[0].fences[0].appearance = Some(AppearanceOverride {
        opacity: Some(dip(0.1)),
        ..Default::default()
    });
    let e = validate(&c).unwrap_err();
    assert_eq!(e, ValidationError::OpacityOutOfRange { layout: 0, fence: 0 });
    assert_eq!(e.message("A", "0.1"), "fence A opacity 0.1 out of range");

    let mut c = sample();
    let mut panel = c.layouts[0].fences[0].clone();
    panel.kind = FenceKind::Virtual;
    panel.content = FenceContentSpec::Panel {
        panel: PanelSpec {
            provider: " ".to_string(),
            instance_id: 1,
            config_version: 1,
            config: "{}".to_string(),
        },
    };
    c.layouts[0].fences.push(panel);
    assert_eq!(validate(&c), Err(ValidationError::Panel { layout: 0, fence: 1 }));
    if let FenceContentSpec::Panel { panel } = &mut c.layouts[0].fences[1].content {
        panel.provider = "p".to_string();
    }
    assert_eq!(validate(&c), Ok(()));
    c.layouts[0].fences[1].items.push(ItemRef {
        item_id: 1,
        manual_index: None,
        assigned_by: AssignedBy::User,
    });
    assert!(validate(&c).is_err());

    let mut c = sample();
    for _ in 0..64 {
        let mut f = c.layouts[0].fences[0].clone();
        f.kind = FenceKind::Virtual;
        c.layouts[0].fences.push(f);
    }
    assert_eq!(validate(&c), Err(ValidationError::TooManyFences(65)));
    assert_eq!(ValidationError::TooManyFences(65).message("", ""), "too many fences: 65");
    assert_eq!(ValidationError::TooManyItems(5001).message("", ""), "too many items: 5001");
    assert_eq!(ValidationError::Inboxes(2).message("", ""), "layout has 2 inbox fences");
}

#[test]
fn too_many_items_are_refused() {
    let mut c = sample();
    let item = |id: u128| pecofence::model::Item {
        id,
        key: pecofence::model::ItemKey::Pidl("x".to_string()),
        origin: pecofence::model::Origin::UserDesktop,
        display_name: String::new(),
        file_id: None,
        mtime: 0,
        is_folder: false,
        attrs: 0,
        icon_key: pecofence::model::IconKey::ByExt(String::new()),
        orphaned_since: None,
        size: 0,
        open_count: 0,
        last_opened: None,
    };
    for id in 0..5001 {
        c.items.insert(id, item(id));
    }
    assert_eq!(validate(&c), Err(ValidationError::TooManyItems(5001)));
}

#[test]
fn backups_are_sorted_and_the_oldest_expire() {
    let names: Vec<String> = (1..=9).rev().map(|d| format!("config-2024-01-0{d}.json")).collect();
    let sorted = sort_names(&names);
    assert_eq!(sorted[0], "config-2024-01-01.json");
    assert_eq!(backup_files(&names)[0], "config-2024-01-09.json");
    assert_eq!(
        expired_backups(&names),
        vec!["config-2024-01-01.json".to_string(), "config-2024-01-02.json".to_string()]
    );
    let order = fallback_order("b".to_string(), &names);
    assert_eq!(order[0], "b");
    assert_eq!(order[1], "config-2024-01-09.json");
    assert_eq!(quarantine_name("2024-01-02", 3_661), "config.corrupt-20240102-010101.json");
}

#[test]
fn a_save_never_touches_the_primary_before_the_copy_is_written() {
    let steps = save_steps(&sample(), true).unwrap();
    let at = |s: SaveStep| steps.iter().position(|x| *x == s).unwrap();
    assert!(at(SaveStep::WriteTmp) < at(SaveStep::PrimaryToBak));
    assert!(at(SaveStep::PrimaryToBak) < at(SaveStep::TmpToPrimary));
}

#[test]
fn texts_are_trimmed_and_compared() {
    assert_eq!(trim_text("  a b \t"), "a b");
    assert!(is_blank(" \u{3000}\n"));
    assert!(!is_blank(" x"));
    assert_eq!(natural_cmp("file2", "FILE10"), Ordering::Less);
    assert_eq!(natural_cmp("file10", "file2"), Ordering::Greater);
    assert_eq!(natural_cmp("A", "a"), Ordering::Equal);
    assert_eq!(natural_rank("a", "b"), Rank::Before);
    assert_eq!(natural_rank("É", "é"), Rank::Same);
}

#[test]
fn long_numbers_are_told_apart() {
    assert_eq!(
        natural_cmp("99999999999999999999", "99999999999999999998"),
        Ordering::Greater
    );
    assert_eq!(natural_cmp("a00099999999999999999998", "a99999999999999999999"), Ordering::Less);
    assert_eq!(natural_cmp("007", "7"), Ordering::Equal);
    assert_eq!(natural_cmp("x100000000000000000000y", "x20y"), Ordering::Greater);
    assert_eq!(natural_cmp("1!", "1"), Ordering::Greater);
    assert_eq!(natural_cmp("!", "99999999999999999999999"), Ordering::Less);
    assert_eq!(natural_cmp("z", "99999999999999999999999"), Ordering::Greater);
}

#[test]
fn nothing_stands_between_a_drive_and_a_name() {
    let at = |dir: &str| ConfigStore::new(dir.to_string()).primary_path();
    assert_eq!(at("C:"), "C:config.json");
    assert_eq!(at("C:\\"), "C:\\config.json");
    assert_eq!(at("1:"), "1:/config.json");
    assert_eq!(at("CC:"), "CC:/config.json");
    assert_eq!(at(""), "config.json");
}

#[test]
fn daily_backups_are_named_by_their_dates() {
    let store = ConfigStore::new("dir".to_string());
    let names: Vec<String> = [
        "2024-01-09.json",
        "notes.json",
        "2024-1-9.json",
        "2024-01-09.jsn0",
        "2023-12-31.json",
        "2024-01-09.json.tmp",
        "x024-01-09.json",
    ]
    .iter()
    .map(|n| n.to_string())
    .collect();
    assert_eq!(
        store.list_backups(&names),
        vec!["dir/backups/2024-01-09.json", "dir/backups/2023-12-31.json"]
    );
}
