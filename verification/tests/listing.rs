use rivett::listing::{
    path_in, retain_rated, sort_paths, supported_files, missing_records, DirectoryListing, RatingFilter,
    RatingFilterOp, SortOrder,
};

const DIR: &str = "/tmp/shots";

/// The listing that a scan of a directory holding `names` gives: supported
/// files only, sorted by name.
fn listing_of(names: &[&str]) -> DirectoryListing {
    let paths: Vec<String> = names.iter().map(|n| format!("{DIR}/{n}")).collect();
    let mut files = supported_files(&paths);
    sort_paths(&mut files, SortOrder::Name, &vec![]);
    DirectoryListing::new(DIR.to_string(), files, None)
}

fn path(name: &str) -> String {
    format!("{DIR}/{name}")
}

#[test]
fn scan_finds_supported_extensions() {
    let listing = listing_of(&["b.png", "a.jpg", "c.bmp", "skip.txt"]);
    assert_eq!(listing.len(), 3, "txt should be excluded");
}

#[test]
fn scan_sorts_by_name_ascending() {
    let listing = listing_of(&["c.gif", "a.png", "b.jpg"]);
    let names: Vec<_> = listing.files.iter().map(|p| p.rsplit('/').next().unwrap().to_string()).collect();
    assert_eq!(names, vec!["a.png", "b.jpg", "c.gif"]);
}

#[test]
fn navigation_does_not_wrap_at_end() {
    let mut l = listing_of(&["a.png", "b.png", "c.png"]);
    while l.go_next() {}
    assert!(!l.can_go_next());
    assert!(l.can_go_prev());
    assert!(!l.go_next(), "go_next at end must return false");
}

#[test]
fn navigation_does_not_wrap_at_start() {
    let mut l = listing_of(&["a.png", "b.png"]);
    assert!(!l.can_go_prev());
    assert!(!l.go_prev(), "go_prev at start must return false");
    assert_eq!(l.current_index, 0);
}

#[test]
fn seek_to_positions_cursor_correctly() {
    let mut l = listing_of(&["a.png", "b.png", "c.png"]);
    let target = path("b.png");
    assert!(l.seek_to(&target));
    assert_eq!(l.current_index, 1);
}

#[test]
fn seek_to_unknown_returns_false() {
    let mut l = listing_of(&["a.png"]);
    assert!(!l.seek_to(&path("nonexistent.png")));
    assert_eq!(l.current_index, 0, "cursor should be unchanged");
}

#[test]
fn empty_directory_listing() {
    let l = listing_of(&["readme.txt"]);
    assert!(l.is_empty());
    assert!(l.current().is_none());
    assert!(!l.can_go_next());
    assert!(!l.can_go_prev());
}

#[test]
fn position_label_is_1_based() {
    let mut l = listing_of(&["a.png", "b.png", "c.png"]);
    assert_eq!(l.position_label(), "1 / 3");
    l.go_next();
    assert_eq!(l.position_label(), "2 / 3");
}

#[test]
fn refresh_restores_cursor_to_same_file() {
    let mut l = listing_of(&["a.png", "b.png", "c.png"]);
    l.seek_to(&path("b.png"));
    l.refresh(listing_of(&["a.png", "b.png", "c.png"]));
    assert_eq!(l.current().unwrap().rsplit('/').next().unwrap(), "b.png");
}

#[test]
fn refresh_follows_file_after_insertions() {
    let mut l = listing_of(&["b.png", "c.png"]);
    l.seek_to(&path("c.png"));
    l.refresh(listing_of(&["a.png", "aa.png", "b.png", "c.png"]));
    assert_eq!(l.current_index, 3);
    assert_eq!(l.current().unwrap(), &path("c.png"));
}

#[test]
fn refresh_keeps_fresh_cursor_when_file_gone() {
    let mut l = listing_of(&["a.png", "b.png"]);
    l.seek_to(&path("b.png"));
    l.refresh(listing_of(&["a.png"]));
    assert_eq!(l.current_index, 0);
}

#[test]
fn step_back_undoes_step_forward() {
    let mut l = listing_of(&["a.png", "b.png", "c.png"]);
    l.go_next();
    let here = l.current_index;
    assert!(l.go_next());
    assert!(l.go_prev());
    assert_eq!(l.current_index, here);
}

#[test]
fn first_and_last() {
    let mut l = listing_of(&["a.png", "b.png", "c.png"]);
    l.go_to_last();
    assert_eq!(l.current_index, 2);
    l.go_to_first();
    assert_eq!(l.current_index, 0);
    let mut e = listing_of(&[]);
    e.go_to_last();
    assert_eq!(e.current_index, 0);
    assert_eq!(e.position_label(), "0 / 0");
}

#[test]
fn clamp_cursor_after_deletion() {
    let mut l = listing_of(&["a.png", "b.png"]);
    l.clamp_cursor(5);
    assert_eq!(l.current_index, 1);
    l.clamp_cursor(0);
    assert_eq!(l.current_index, 0);
    let mut e = listing_of(&[]);
    e.clamp_cursor(3);
    assert_eq!(e.current_index, 0);
}

#[test]
fn hidden_files_are_skipped() {
    let mut l = listing_of(&["a.png", "b.png", "c.png", "d.png"]);
    let hidden = vec![path("b.png"), path("c.png")];
    assert!(l.advance_visible(1, &hidden));
    assert_eq!(l.current().unwrap(), &path("d.png"));
    assert!(l.retreat_visible(1, &hidden));
    assert_eq!(l.current().unwrap(), &path("a.png"));
}

#[test]
fn hidden_ends_are_skipped() {
    let mut l = listing_of(&["a.png", "b.png", "c.png"]);
    let hidden = vec![path("a.png"), path("c.png")];
    l.go_to_first_shown(&hidden);
    assert_eq!(l.current().unwrap(), &path("b.png"));
    l.go_to_last_shown(&hidden);
    assert_eq!(l.current().unwrap(), &path("b.png"));
}

#[test]
fn path_in_compares_components() {
    let set = vec!["/a/b/c.png".to_string()];
    assert!(path_in(&set, "/a//b/./c.png"));
    assert!(!path_in(&set, "/a/b/c.pn"));
}

#[test]
fn missing_records_are_those_not_on_disk() {
    let db_names = vec!["a.png".to_string(), "gone.png".to_string()];
    let files = vec![path("a.png"), path("b.png")];
    assert_eq!(missing_records(&db_names, &files), vec!["gone.png".to_string()]);
}

#[test]
fn rating_filter_keeps_matching_records() {
    let files = vec![path("a.png"), path("b.png"), path("c.png")];
    let filter = RatingFilter { op: RatingFilterOp::AtLeast, value: 3, path_prefix: None };
    let records = vec![("a.png".to_string(), Some(4u8)), ("b.png".to_string(), Some(2u8))];
    assert_eq!(retain_rated(&files, &filter, &records), vec![path("a.png")]);
    let exact = RatingFilter { op: RatingFilterOp::Exactly, value: 2, path_prefix: Some("/tmp".to_string()) };
    assert_eq!(retain_rated(&files, &exact, &records), vec![path("b.png")]);
    let under_other = RatingFilter { op: RatingFilterOp::AtMost, value: 5, path_prefix: Some("/srv".to_string()) };
    assert!(retain_rated(&files, &under_other, &records).is_empty());
}

#[test]
fn sort_by_keys_is_stable() {
    let mut files = vec![path("a.png"), path("b.png"), path("c.png")];
    sort_paths(&mut files, SortOrder::FileSize, &vec![30, 10, 10]);
    assert_eq!(files, vec![path("b.png"), path("c.png"), path("a.png")]);
}

#[test]
fn global_listing_drops_missing_files() {
    let records = vec![
        ("/x".to_string(), "a.png".to_string()),
        ("/y".to_string(), "b.png".to_string()),
        ("/z".to_string(), "c.png".to_string()),
    ];
    let exists = vec![true, false, true];
    let filter = RatingFilter { op: RatingFilterOp::AtLeast, value: 1, path_prefix: None };
    let (listing, gone) = DirectoryListing::scan_global(&records, &exists, &filter);
    assert_eq!(listing.files, vec!["/x/a.png".to_string(), "/z/c.png".to_string()]);
    assert_eq!(gone, vec![1]);
    assert!(listing.is_global_view());
}
