use pecofence::clock::new_id;
use pecofence::config::{drop_item, holder_position, loaded_content};
use pecofence::dip::Dip;
use pecofence::model::{
    Anchor, AssignedBy, Config, Fence, FenceContentSpec, FenceId, FenceKind, ItemKey, ItemRef,
    ItemSourceSpec, Layout, MonitorIdentity, NormGeometry, PanelSpec,
};
use pecofence::settings::{Settings, ThemeStyle};
use pecofence::tabs::{contains_id, id_position, position, same_ids};

fn dip(x: f32) -> Dip {
    Dip { bits: x.to_bits() }
}

fn geo() -> NormGeometry {
    NormGeometry {
        monitor: "m".to_string(),
        x: dip(0.0),
        y: dip(0.0),
        w: dip(300.0),
        h: dip(200.0),
        work_w: dip(1920.0),
        work_h: dip(1040.0),
        anchor: Anchor::LeftTop,
    }
}

fn fence_at(layout: &Layout, id: FenceId) -> &Fence {
    layout.fences.iter().find(|f| f.id == id).unwrap()
}

#[test]
fn assign_moves_between_fences_and_logs_rule_assignments() {
    let mut c = Config::default();
    let a = Fence::new("A", FenceKind::Virtual, geo());
    let b = Fence::new("B", FenceKind::Inbox, geo());
    let (aid, bid) = (a.id, b.id);
    c.layouts.push(Layout { fingerprint: vec![], fences: vec![a, b] });
    let item = new_id();
    let rule = new_id();
    assert!(c.assign(0, item, bid, AssignedBy::User).is_some());
    assert_eq!(c.fence_of_item(0, item), Some(bid));
    assert!(c.undo_log.is_empty());
    let moved = c.assign(0, item, aid, AssignedBy::Rule(rule)).unwrap();
    assert_eq!(moved.from, Some(bid));
    assert_eq!(c.fence_of_item(0, item), Some(aid));
    assert_eq!(c.undo_log.len(), 1);
    assert!(c.assign(0, item, aid, AssignedBy::User).is_none());
}

#[test]
fn every_tab_can_detach_at_every_position_and_restore_the_group() {
    let orders: Vec<Vec<usize>> = vec![
        vec![0, 1],
        vec![1, 0],
        vec![0, 1, 2],
        vec![0, 2, 1],
        vec![1, 0, 2],
        vec![1, 2, 0],
        vec![2, 0, 1],
        vec![2, 1, 0],
    ];
    for order in orders {
        for active_index in 0..order.len() {
            for detach_index in 0..order.len() {
                for rolled in [false, true] {
                    let mut fences: Vec<Fence> = (0..order.len())
                        .map(|i| {
                            let mut f = Fence::new(&format!("Fence {i}"), FenceKind::Virtual, geo());
                            f.geometry.x = dip(100.0 * i as f32);
                            f.geometry.w = dip(240.0 + 40.0 * i as f32);
                            f.view.auto_height = i == 1;
                            f.items.push(ItemRef {
                                item_id: new_id(),
                                manual_index: None,
                                assigned_by: AssignedBy::User,
                            });
                            f
                        })
                        .collect();
                    let ids: Vec<FenceId> = fences.iter().map(|f| f.id).collect();
                    for f in &mut fences[1..] {
                        f.tab_host = Some(ids[0]);
                    }
                    let strip: Vec<FenceId> = order.iter().map(|&i| ids[i]).collect();
                    let active = strip[active_index];
                    fences[0].tab_order = strip.clone();
                    fences[0].active_tab = (active != ids[0]).then_some(active);
                    fences[0].rolled_up = rolled;
                    let before = fences.clone();
                    let mut layout = Layout { fingerprint: vec![], fences };
                    let tab = strip[detach_index];
                    let change = layout.detach_tab(tab).unwrap();
                    let remaining: Vec<FenceId> =
                        strip.iter().copied().filter(|id| *id != tab).collect();
                    let root = if tab == ids[0] { remaining[0] } else { ids[0] };
                    assert_eq!(change.source_host, ids[0]);
                    assert_eq!(change.remaining_host, root);
                    assert_eq!(layout.host_of(tab), tab);
                    assert_eq!(layout.tabs_of(tab), vec![tab]);
                    assert_eq!(layout.tabs_of(root), remaining);
                    for id in &remaining {
                        assert_eq!(layout.host_of(*id), root);
                    }
                    let next = if active == tab {
                        remaining[detach_index.min(remaining.len() - 1)]
                    } else {
                        active
                    };
                    assert_eq!(layout.active_tab_of(root), next);
                    let group = fence_at(&layout, root);
                    assert_eq!(group.geometry, before[0].geometry);
                    assert_eq!(group.rolled_up, rolled);
                    assert_eq!(group.view.auto_height, before[0].view.auto_height);
                    for old in &before {
                        let current = fence_at(&layout, old.id);
                        assert_eq!(current.title, old.title);
                        assert_eq!(current.items, old.items);
                        assert_eq!(current.source, old.source);
                    }
                    assert!(!layout.normalize_tabs(), "detach must already produce a valid graph");
                    assert!(layout.cancel_tab_detach(&change));
                    assert_eq!(
                        layout.fences, before,
                        "cancel must restore IDs, order, active tab and geometry"
                    );
                }
            }
        }
    }
}

#[test]
fn detach_undo_preserves_content_edits_and_rejects_a_later_merge() {
    let mut a = Fence::new("A", FenceKind::Virtual, geo());
    let mut b = Fence::new("B", FenceKind::Virtual, geo());
    let (aid, bid) = (a.id, b.id);
    b.tab_host = Some(aid);
    a.tab_order = vec![aid, bid];
    let mut layout = Layout { fingerprint: vec![], fences: vec![a, b] };
    let change = layout.detach_tab(aid).unwrap();
    layout.fences[0].title = "Renamed while dragging".to_string();
    assert!(layout.cancel_tab_detach(&change));
    assert_eq!(layout.fences[0].title, "Renamed while dragging");
    let change = layout.detach_tab(aid).unwrap();
    let other = Fence::new("Other group", FenceKind::Virtual, geo());
    let other_id = other.id;
    layout.fences.push(other);
    layout.fences[1].tab_host = Some(other_id);
    assert!(
        !layout.cancel_tab_detach(&change),
        "a later merge of the remaining group owns its state"
    );
    layout.fences[1].tab_host = None;
    layout.fences[0].tab_host = Some(bid);
    assert!(!layout.cancel_tab_detach(&change));
    let mut single = Layout {
        fingerprint: vec![],
        fences: vec![Fence::new("only", FenceKind::Virtual, geo())],
    };
    let only = single.fences[0].id;
    assert!(single.detach_tab(only).is_none());
}

#[test]
fn tabs_normalize_dangling_hosts_and_chains() {
    let mut a = Fence::new("A", FenceKind::Virtual, geo());
    let mut b = Fence::new("B", FenceKind::Virtual, geo());
    let mut c = Fence::new("C", FenceKind::Virtual, geo());
    let (aid, bid, cid) = (a.id, b.id, c.id);
    b.tab_host = Some(aid);
    c.tab_host = Some(bid);
    a.active_tab = Some(cid);
    let mut l = Layout { fingerprint: vec![], fences: vec![a, b, c] };
    assert!(l.normalize_tabs());
    assert_eq!(l.tabs_of(aid), vec![aid, bid, cid]);
    assert_eq!(l.host_of(cid), aid);
    assert_eq!(l.active_tab_of(aid), cid);
    l.fences.remove(0);
    assert!(l.normalize_tabs());
    assert_eq!(l.host_of(bid), bid);
    assert_eq!(l.tabs_of(bid), vec![bid]);
    assert!(!l.normalize_tabs());
}

#[test]
fn tabs_of_honours_tab_order_and_normalize_prunes_stale_ids() {
    let a = Fence::new("A", FenceKind::Virtual, geo());
    let mut b = Fence::new("B", FenceKind::Virtual, geo());
    let mut c = Fence::new("C", FenceKind::Virtual, geo());
    let (aid, bid, cid) = (a.id, b.id, c.id);
    b.tab_host = Some(aid);
    c.tab_host = Some(aid);
    let mut l = Layout { fingerprint: vec![], fences: vec![a, b, c] };
    assert_eq!(l.tabs_of(aid), vec![aid, bid, cid]);
    assert!(l.reorder_tab(aid, aid, 2));
    assert_eq!(l.tabs_of(aid), vec![bid, cid, aid]);
    assert!(l.reorder_tab(aid, bid, 99));
    assert_eq!(l.tabs_of(aid), vec![cid, aid, bid]);
    assert!(!l.reorder_tab(aid, bid, 5));
    assert!(!l.reorder_tab(aid, new_id(), 0));
    l.fences[0].tab_order.push(new_id());
    l.fences[2].tab_host = None;
    assert!(l.normalize_tabs());
    assert_eq!(l.fences[0].tab_order, vec![aid, bid]);
    assert_eq!(l.tabs_of(aid), vec![aid, bid]);
    assert!(!l.normalize_tabs());
}

#[test]
fn layout_lookup_is_order_insensitive() {
    let mut c = Config::default();
    c.layouts.push(Layout {
        fingerprint: vec![
            MonitorIdentity {
                device_path: "b".to_string(),
                work_dip: [dip(1.0), dip(1.0)],
                dpi: 96,
            },
            MonitorIdentity {
                device_path: "a".to_string(),
                work_dip: [dip(1.0), dip(1.0)],
                dpi: 96,
            },
        ],
        fences: vec![],
    });
    assert_eq!(c.layout_for(&vec!["a".to_string(), "b".to_string()]), Some(0));
    assert_eq!(c.layout_for(&vec!["a".to_string()]), None);
}

#[test]
fn namespace_keys_are_detected_after_normalization() {
    let bin = ItemKey::from_path("::{645FF040-5081-101B-9F08-00AA002F954E}");
    assert!(bin.is_namespace());
    assert_eq!(bin.as_path(), Some("::{645ff040-5081-101b-9f08-00aa002f954e}"));
    assert!(!ItemKey::from_path(r"C:\Users\me\Desktop\a.txt").is_namespace());
    assert!(!ItemKey::Pidl("AAAA".to_string()).is_namespace());
}

#[test]
fn keys_fold_case_slashes_and_trailing_separators() {
    assert_eq!(
        ItemKey::from_path("C:/Users/Me/Desktop/Report.docx"),
        ItemKey::Path("c:\\users\\me\\desktop\\report.docx".to_string())
    );
    assert_eq!(ItemKey::from_path("D:\\Stuff\\").as_path(), Some("d:\\stuff"));
    assert_eq!(ItemKey::from_path("D:\\").as_path(), Some("d:\\"));
    assert_eq!(ItemKey::from_path("ÄÖ/X").as_path(), Some("äö\\x"));
}

#[test]
fn ids_are_random_and_versioned() {
    let a = new_id();
    let b = new_id();
    assert_ne!(a, b);
    assert_eq!((a >> 76) & 0xF, 4);
    assert_eq!((a >> 62) & 0x3, 2);
}

#[test]
fn file_sources_fill_the_content_as_well() {
    let mut f = Fence::new("Portal", FenceKind::FolderPortal, geo());
    let source = ItemSourceSpec::Folder {
        path: "C:/projects".to_string(),
        recursive: true,
        filter: Some("*.rs".to_string()),
    };
    f.set_file_source(source.clone());
    assert_eq!(f.source, source);
    assert_eq!(f.content, FenceContentSpec::Files { source: source.clone() });
    assert!(f.content.is_files());
    let (content, kept) = loaded_content(source.clone(), None);
    assert_eq!(content, FenceContentSpec::Files { source: source.clone() });
    assert_eq!(kept, source);
    let panel = FenceContentSpec::Panel {
        panel: PanelSpec {
            provider: "pecofence.spm".to_string(),
            instance_id: 5,
            config_version: 1,
            config: "{}".to_string(),
        },
    };
    assert!(!panel.is_files());
    let (content, _) = loaded_content(source, Some(panel.clone()));
    assert_eq!(content, panel);
}

#[test]
fn positions_and_members_are_found() {
    let a = Fence::new("A", FenceKind::Virtual, geo());
    let mut b = Fence::new("B", FenceKind::Virtual, geo());
    let r = ItemRef { item_id: 7, manual_index: Some(0), assigned_by: AssignedBy::User };
    b.items.push(r);
    let ids = vec![a.id, b.id];
    assert!(b.contains_item(7));
    assert!(!a.contains_item(7));
    let refs = b.items.clone();
    let fences = vec![a, b];
    assert_eq!(position(&fences, ids[1]), Some(1));
    assert_eq!(position(&fences, 0), None);
    assert_eq!(holder_position(&fences, 7), Some(1));
    assert_eq!(holder_position(&fences, 8), None);
    assert!(drop_item(&refs, 7).is_empty());
    assert_eq!(drop_item(&refs, 8).len(), 1);
    assert!(contains_id(&ids, ids[0]));
    assert_eq!(id_position(&ids, ids[1]), Some(1));
    assert!(same_ids(&ids, &ids.clone()));
    assert!(!same_ids(&ids, &vec![ids[1], ids[0]]));
}

#[test]
fn the_style_of_old_settings_is_fluent() {
    assert_eq!(ThemeStyle::default(), ThemeStyle::Fluent);
    assert_eq!(Settings::default().theme_style, ThemeStyle::Fluent);
}

#[test]
fn the_undo_log_keeps_the_last_fifty() {
    let mut c = Config::default();
    let a = Fence::new("A", FenceKind::Virtual, geo());
    let b = Fence::new("B", FenceKind::Inbox, geo());
    let (aid, bid) = (a.id, b.id);
    c.layouts.push(Layout { fingerprint: vec![], fences: vec![a, b] });
    for i in 0..60 {
        let to = if i % 2 == 0 { aid } else { bid };
        assert!(c.assign_at(0, 1, to, AssignedBy::Rule(9), i).is_some());
    }
    assert_eq!(c.undo_log.len(), 50);
    assert_eq!(c.undo_log[0].ts, 10);
    assert_eq!(c.undo_log[49].ts, 59);
    assert!(c.assign_at(0, 1, 12345, AssignedBy::User, 99).is_none());
}

fn hosted(links: &[Option<usize>]) -> Layout {
    let mut fences: Vec<Fence> =
        links.iter().map(|_| Fence::new("F", FenceKind::Virtual, geo())).collect();
    for (i, link) in links.iter().enumerate() {
        fences[i].tab_host = link.map(|h| fences[h].id);
    }
    Layout { fingerprint: vec![], fences }
}

fn hosts(layout: &Layout) -> Vec<Option<usize>> {
    layout
        .fences
        .iter()
        .map(|f| f.tab_host.and_then(|h| layout.fences.iter().position(|g| g.id == h)))
        .collect()
}

#[test]
fn a_hosted_fence_has_no_tabs_but_itself() {
    let layout = hosted(&[None, Some(0), Some(1)]);
    let ids: Vec<FenceId> = layout.fences.iter().map(|f| f.id).collect();
    assert_eq!(layout.tabs_of(ids[0]), vec![ids[0], ids[1]]);
    assert_eq!(layout.tabs_of(ids[1]), vec![ids[1]]);
    assert_eq!(layout.tabs_of(ids[2]), vec![ids[2]]);
}

#[test]
fn circles_of_hosts_are_cut() {
    let mut layout = hosted(&[Some(1), Some(2), Some(1)]);
    assert!(layout.normalize_tabs());
    assert_eq!(hosts(&layout), vec![Some(1), None, Some(1)]);
    assert!(!layout.normalize_tabs());
    let mut layout = hosted(&[Some(2), Some(0), Some(1), Some(2)]);
    assert!(layout.normalize_tabs());
    assert_eq!(hosts(&layout), vec![None, Some(0), Some(0), Some(0)]);
    let mut layout = hosted(&[Some(0)]);
    assert!(layout.normalize_tabs());
    assert_eq!(hosts(&layout), vec![None]);
    let mut layout = hosted(&[Some(1), Some(2), Some(3), None]);
    assert!(layout.normalize_tabs());
    assert_eq!(hosts(&layout), vec![Some(3), Some(3), Some(3), None]);
}

#[test]
fn fences_with_the_same_id_are_repaired_too() {
    let mut layout = hosted(&[None, Some(0), Some(1)]);
    layout.fences[2].id = layout.fences[0].id;
    assert!(layout.normalize_tabs());
    assert_eq!(hosts(&layout), vec![None, Some(0), None]);
    assert!(!layout.normalize_tabs());
}

#[test]
fn cancelling_a_detach_keeps_what_was_edited() {
    let mut layout = hosted(&[None, Some(0), Some(0)]);
    let ids: Vec<FenceId> = layout.fences.iter().map(|f| f.id).collect();
    let change = layout.detach_tab(ids[0]).unwrap();
    assert_eq!(change.source_host, ids[0]);
    assert_eq!(change.remaining_host, ids[1]);
    assert!(!layout.normalize_tabs());
    layout.fences[0].title = "edited".to_string();
    layout.fences[0].rolled_up = true;
    layout.fences[1].geometry.x = dip(77.0);
    assert!(layout.cancel_tab_detach(&change));
    assert_eq!(layout.fences[0].title, "edited");
    assert!(!layout.fences[0].rolled_up);
    assert_eq!(layout.fences[1].geometry.x, dip(0.0));
    assert_eq!(hosts(&layout), vec![None, Some(0), Some(0)]);
}
