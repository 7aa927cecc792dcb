use rivett::listing::{RatingFilter, RatingFilterOp};
use rivett::lru::LruOrder;
use rivett::records::{filtered_images_query, tag_names_to_store, ImageRecord, SqlParam, TagRecord};
use rivett::rotation::{combine_rotations, exif_orientation_to_rotation, rotation_to_exif_orientation, Rotation};

const HEAD: &str = "SELECT d.path,
                    i.id, i.directory_id, i.filename, i.file_size,
                    i.file_modified_at, i.rating, i.bookmarked, i.rotation, i.note,
                    i.created_at, i.updated_at
             FROM images i JOIN directories d ON i.directory_id = d.id";

fn text(p: &SqlParam) -> Option<&str> {
    match p {
        SqlParam::Text(t) => Some(t.as_str()),
        SqlParam::Integer(_) => None,
    }
}

fn integer(p: &SqlParam) -> Option<i64> {
    match p {
        SqlParam::Integer(n) => Some(*n),
        SqlParam::Text(_) => None,
    }
}

#[test]
fn unfiltered_query() {
    let (q, p) = filtered_images_query(None, &vec![]);
    assert_eq!(q, format!("{HEAD} ORDER BY i.updated_at DESC"));
    assert!(p.is_empty());
}

#[test]
fn rating_and_prefix_query() {
    let f = RatingFilter { op: RatingFilterOp::AtLeast, value: 4, path_prefix: Some("/photos".into()) };
    let (q, p) = filtered_images_query(Some(&f), &vec![]);
    assert_eq!(q, format!("{HEAD} WHERE i.rating >= ?1 AND d.path LIKE ?2 ORDER BY i.updated_at DESC"));
    assert_eq!(p.len(), 2);
    assert_eq!(integer(&p[0]), Some(4));
    assert_eq!(text(&p[1]), Some("/photos%"));
}

#[test]
fn tag_joins_follow_rating_params() {
    let f = RatingFilter { op: RatingFilterOp::Exactly, value: 2, path_prefix: None };
    let (q, p) = filtered_images_query(Some(&f), &vec!["cat".into(), "dog".into()]);
    let join = |i: usize, n: usize| {
        format!(
            " JOIN image_tags it{i} ON i.id = it{i}.image_id
                      JOIN tags t{i} ON it{i}.tag_id = t{i}.id AND t{i}.name = ?{n}"
        )
    };
    assert_eq!(q, format!("{HEAD}{}{} WHERE i.rating = ?1 ORDER BY i.updated_at DESC", join(0, 2), join(1, 3)));
    assert_eq!(p.len(), 3);
    assert_eq!(text(&p[1]), Some("cat"));
    assert_eq!(text(&p[2]), Some("dog"));
}

#[test]
fn at_most_query_with_tags_only() {
    let (q, _) = filtered_images_query(None, &vec!["x".into()]);
    assert!(q.ends_with("t0.name = ?1 ORDER BY i.updated_at DESC"));
    let f = RatingFilter { op: RatingFilterOp::AtMost, value: 1, path_prefix: None };
    let (q, _) = filtered_images_query(Some(&f), &vec![]);
    assert!(q.contains("i.rating <= ?1"));
}

#[test]
fn rows_become_records() {
    let r = ImageRecord::from_columns(1, 2, "a.jpg".into(), 3, 4, Some(5), 7, 257, None, 8, 9);
    assert_eq!(r.rating, Some(5));
    assert!(r.bookmarked);
    assert_eq!(r.rotation, 1);
    let r = ImageRecord::from_columns(1, 2, "a.jpg".into(), 3, 4, None, 0, 0, Some("n".into()), 8, 9);
    assert_eq!(r.rating, None);
    assert!(!r.bookmarked);
    assert_eq!(r.note.as_deref(), Some("n"));
    let copy = r.duplicate();
    assert_eq!(copy.filename, "a.jpg");
    let t = TagRecord::from_columns(3, "cat".into(), 0x1_00FF_0000);
    assert_eq!(t.color, 0x00FF_0000);
}

#[test]
fn lru_evicts_least_recently_used() {
    let mut lru = LruOrder::new(2);
    assert_eq!(lru.take_in("/a".into()), None);
    assert_eq!(lru.take_in("/b".into()), None);
    lru.touch(&"/a".into());
    assert_eq!(lru.take_in("/c".into()), Some("/b".to_string()));
    assert_eq!(lru.order, vec!["/a".to_string(), "/c".to_string()]);
    assert_eq!(lru.take_in("/c".into()), None);
    assert!(lru.contains("/a"));
    lru.remove("/a");
    assert!(!lru.contains("/a"));
    assert_eq!(lru.order, vec!["/c".to_string()]);
}

#[test]
fn lru_with_no_capacity_keeps_one() {
    let mut lru = LruOrder::new(0);
    assert_eq!(lru.take_in("/a".into()), None);
    assert_eq!(lru.take_in("/b".into()), Some("/a".to_string()));
    assert_eq!(lru.order.len(), 1);
}

#[test]
fn rotations_compose() {
    assert_eq!(combine_rotations(Rotation::Cw90, Rotation::Cw270), Rotation::Cw0);
    assert_eq!(combine_rotations(Rotation::Cw180, Rotation::Cw270), Rotation::Cw90);
    assert_eq!(Rotation::Cw270.rotated_cw(), Rotation::Cw0);
    assert_eq!(Rotation::Cw0.rotated_ccw(), Rotation::Cw270);
    assert_eq!(Rotation::from_u8(6), Rotation::Cw180);
}

#[test]
fn orientation_values_round_trip() {
    for r in [Rotation::Cw0, Rotation::Cw90, Rotation::Cw180, Rotation::Cw270] {
        assert_eq!(exif_orientation_to_rotation(rotation_to_exif_orientation(r) as u32), r);
    }
    assert_eq!(rotation_to_exif_orientation(Rotation::Cw90), 6);
    assert_eq!(exif_orientation_to_rotation(2), Rotation::Cw0);
}

#[test]
fn tag_names_are_trimmed_and_empty_ones_dropped() {
    let names = vec!["  sky ".to_string(), "   ".to_string(), "".to_string(), "sea\t".to_string()];
    assert_eq!(tag_names_to_store(&names), vec!["sky".to_string(), "sea".to_string()]);
    assert!(tag_names_to_store(&vec![]).is_empty());
}
