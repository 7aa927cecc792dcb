use rivett::consolidate::{
    color_channels, pack_color, should_rename, ConsolidateOp, ConsolidateResults, ConsolidateState, FileOutcome,
    RecordAction, UtilitiesState,
};
use rivett::health::DbHealthState;
use rivett::purge::PurgeState;
use rivett::records::TagRecord;
use rivett::summary::{path_is_excluded, summarise_paths, trim_tail, PathEntry};

fn files(list: &[(&str, usize)]) -> Vec<(String, usize)> {
    list.iter().map(|(p, b)| (p.to_string(), *b)).collect()
}

#[test]
fn trim_tail_cuts_components() {
    assert_eq!(trim_tail("/a/b/c", 0), "/a/b/c");
    assert_eq!(trim_tail("/a/b/c", 1), "/a/b/…");
    assert_eq!(trim_tail("/a/b/c", 3), "//…");
    assert_eq!(trim_tail("/a/b/c", 9), "/…");
    assert_eq!(trim_tail("/a/b", 3), "/…");
    assert_eq!(trim_tail("/a", 2), "/…");
    assert_eq!(trim_tail("/a/b", 2), "//…");
    assert_eq!(trim_tail("a/b", 2), "/…");
    assert_eq!(trim_tail("a", 0), "a");
    assert_eq!(trim_tail("x/y", 1), "x/…");
    assert_eq!(trim_tail("", 1), "");
}

#[test]
fn summary_counts_per_directory_and_bucket() {
    let f = files(&[("/p/x/1.jpg", 0), ("/p/x/2.jpg", 3), ("/p/y/3.jpg", 3), ("/p/x/4.jpg", 3)]);
    let s = summarise_paths(&f);
    assert_eq!(s.len(), 2);
    assert_eq!(s[0].path, "/p/x");
    assert_eq!(s[0].counts, [1, 0, 0, 2, 0, 0]);
    assert_eq!(s[1].path, "/p/y");
    assert_eq!(s[1].counts, [0, 0, 0, 1, 0, 0]);
    assert!(!s[0].excluded && !s[1].excluded);
}

#[test]
fn summary_collapses_many_directories() {
    let owned: Vec<(String, usize)> = (0..25).map(|i| (format!("/root/d{i:02}/img.png"), 1)).collect();
    let s = summarise_paths(&owned);
    assert_eq!(s.len(), 1);
    assert_eq!(s[0].path, "/root/…");
    assert_eq!(s[0].counts[1], 25);
}

#[test]
fn summary_of_nothing_is_empty() {
    assert!(summarise_paths(&vec![]).is_empty());
}

#[test]
fn exclusion_is_component_wise() {
    let summary = vec![
        PathEntry { path: "/photos/2024".into(), counts: [0; 6], excluded: true },
        PathEntry { path: "/other/…".into(), counts: [0; 6], excluded: true },
        PathEntry { path: "/kept".into(), counts: [0; 6], excluded: false },
    ];
    assert!(path_is_excluded("/photos/2024/a.jpg", &summary));
    assert!(path_is_excluded("/photos/2024/sub/a.jpg", &summary));
    assert!(!path_is_excluded("/photos/2024extra/a.jpg", &summary));
    assert!(path_is_excluded("/other/deep/a.jpg", &summary));
    assert!(!path_is_excluded("/kept/a.jpg", &summary));
    assert!(!path_is_excluded("/", &summary));
}

#[test]
fn purge_buckets_by_rating() {
    let mut p = PurgeState::new("/p".into());
    let found = vec!["/p/a.jpg".to_string(), "/p/b.jpg".to_string(), "/p/c.jpg".to_string()];
    let ratings = vec![
        ("/p".to_string(), "a.jpg".to_string(), Some(5u8)),
        ("/p".to_string(), "b.jpg".to_string(), None),
        ("/p".to_string(), "a.jpg".to_string(), Some(2u8)),
    ];
    p.apply_scan(&found, &ratings);
    assert!(p.scanned);
    assert_eq!(p.buckets[2], vec!["/p/a.jpg".to_string()]);
    assert_eq!(p.buckets[0], vec!["/p/b.jpg".to_string(), "/p/c.jpg".to_string()]);
    assert_eq!(p.filtered_count(0), 2);
    assert_eq!(p.summary.len(), 1);
    assert_eq!(p.summary[0].counts, [2, 0, 1, 0, 0, 0]);
}

#[test]
fn purge_respects_exclusions_and_reports() {
    let mut p = PurgeState::new("/p".into());
    let found = vec!["/p/x/a.jpg".to_string(), "/p/y/b.jpg".to_string(), "/p/y/c.jpg".to_string()];
    p.apply_scan(&found, &vec![]);
    p.summary[0].excluded = true; // "/p/x"
    assert_eq!(p.files_for_deletion(0), vec!["/p/y/b.jpg".to_string(), "/p/y/c.jpg".to_string()]);
    p.finish_deletion(0, &vec!["/p/y/b.jpg".to_string()], 1);
    assert_eq!(p.buckets[0], vec!["/p/x/a.jpg".to_string(), "/p/y/c.jpg".to_string()]);
    assert_eq!(p.result.as_deref(), Some("Deleted 1 file, 1 failed."));
    assert!(p.summary[0].excluded, "exclusion of a path that stays is kept");
    p.finish_deletion(0, &vec!["/p/y/c.jpg".to_string(), "/p/x/a.jpg".to_string()], 0);
    assert_eq!(p.result.as_deref(), Some("Deleted 2 files."));
    assert!(p.summary.is_empty());
}

#[test]
fn health_finds_and_prunes_orphans() {
    let mut h = DbHealthState::new(10);
    let entries = vec![
        (1, "/d1".to_string(), "a.jpg".to_string()),
        (1, "/d1".to_string(), "b.jpg".to_string()),
        (2, "/d2".to_string(), "c.jpg".to_string()),
    ];
    h.apply_scan(&entries, &vec![false, true, false]);
    assert_eq!(h.orphans.len(), 2);
    assert_eq!(h.summary.len(), 2);
    assert_eq!(h.candidate_count(), 2);
    h.summary[1].excluded = true; // "/d2"
    assert_eq!(h.candidate_count(), 1);
    assert_eq!(h.prune_candidates(), vec![true, false]);
    h.finish_prune(&vec![true, false]);
    assert_eq!(h.total_entries, 9);
    assert_eq!(h.orphans, vec![(2, "/d2".to_string(), "c.jpg".to_string())]);
    assert_eq!(h.result.as_deref(), Some("Removed 1 entry."));
    assert!(h.summary[0].excluded);
}

#[test]
fn health_reports_failures() {
    let mut h = DbHealthState::new(0);
    let entries = vec![(1, "/d".to_string(), "a".to_string()), (1, "/d".to_string(), "b".to_string())];
    h.apply_scan(&entries, &vec![false, false]);
    h.finish_prune(&vec![false, true]);
    assert_eq!(h.total_entries, 0);
    assert_eq!(h.result.as_deref(), Some("Removed 1 entry, 1 failed."));
    assert_eq!(h.orphans.len(), 1);
}

#[test]
fn consolidate_options() {
    let mut c = ConsolidateState::new(vec!["/in/a.jpg".into()]);
    assert!(!c.can_begin());
    c.destination = "/out".into();
    assert!(c.can_begin());
    assert_eq!(c.record_action(), RecordAction::CopyRecord { rating: true, tags: true, notes: true });
    c.copy_rating = false;
    c.copy_tags = false;
    c.copy_notes = false;
    assert_eq!(c.record_action(), RecordAction::Leave);
    c.operation = ConsolidateOp::Move;
    assert_eq!(c.record_action(), RecordAction::MoveRecord);
    c.move_update_db = false;
    assert_eq!(c.record_action(), RecordAction::Leave);
    assert_eq!(c.target_of("/in/a.jpg"), Some(("a.jpg".to_string(), "/out/a.jpg".to_string())));
    assert_eq!(c.target_of("/"), None);
}

#[test]
fn consolidate_outcomes_are_recorded() {
    let mut r = ConsolidateResults::new();
    r.record(FileOutcome::Done, &"/in/a".into(), &"a".into());
    r.record(FileOutcome::Exists, &"/in/b".into(), &"b".into());
    r.record(FileOutcome::Failed, &"/in/c".into(), &"c".into());
    r.record(FileOutcome::NoName, &"/".into(), &"".into());
    assert_eq!(r.succeeded, 1);
    assert_eq!(r.skipped, vec!["b".to_string()]);
    assert_eq!(r.failed, vec!["c".to_string(), "/".to_string()]);
}

#[test]
fn utility_windows_open() {
    let mut u = UtilitiesState::new();
    u.open_purge("/base".into());
    u.open_db_health(7);
    u.open_tag_editor(vec![TagRecord { id: 1, name: "cat".into(), color: 0 }]);
    u.open_consolidate(vec!["/x.jpg".into()]);
    assert_eq!(u.purge.as_ref().unwrap().base_path, "/base");
    assert_eq!(u.db_health.as_ref().unwrap().total_entries, 7);
    assert_eq!(u.tag_editor.as_ref().unwrap().tags.len(), 1);
    assert_eq!(u.consolidate.as_ref().unwrap().files.len(), 1);
}

#[test]
fn tag_colors_round_trip() {
    assert_eq!(color_channels(0x12_34_56), (0x12, 0x34, 0x56));
    assert_eq!(pack_color(0xAB, 0xCD, 0xEF), 0xAB_CD_EF);
    assert_eq!(color_channels(pack_color(1, 2, 3)), (1, 2, 3));
}

#[test]
fn renames_need_a_new_name() {
    assert!(should_rename(&"dogs".into(), &"cats".into()));
    assert!(!should_rename(&"   ".into(), &"cats".into()));
    assert!(!should_rename(&"cats".into(), &"cats".into()));
}
