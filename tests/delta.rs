use termrect::delta::Delta;
use termrect::delta::Delta::{Range, Unchanged};

#[test]
fn test_delta() {
    let mut d = Unchanged;
    assert_eq!(d.to_range().len(), 0);
    assert!(!d.contains(0));
    assert!(!d.contains(1));
    assert!(!d.contains(2));

    d.add(1);
    assert_eq!(d.to_range().len(), 1);
    assert!(!d.contains(0));
    assert!(d.contains(1));
    assert!(!d.contains(2));
    assert!(!d.contains(3));

    d.add(3);
    assert!(d.to_range().len() >= 2);
    assert!(d.contains(3));

    let r = 4..7;
    for i in r.clone() {
        assert!(!d.contains(i));
    }
    d.add_range(r.clone());
    for i in r {
        assert!(d.contains(i));
    }
}

#[test]
fn test_delta_splice() {
    // insert right of delta
    let mut d = Range(2, 3);
    d.add_splice_range(4..4, 3);
    assert_eq!(d, Range(2, 7));

    // delete right of delta
    let mut d = Range(1, 2);
    d.add_splice_range(2..3, 0);
    assert_eq!(d, Range(1, 2));

    // insert left of delta
    let mut d = Range(2, 3);
    d.add_splice_range(0..0, 3);
    assert_eq!(d, Range(0, 6));

    // delete left of delta
    let mut d = Range(2, 3);
    d.add_splice_range(0..2, 1);
    assert_eq!(d, Range(0, 2));

    // insert inside delta
    let mut d = Range(2, 5);
    d.add_splice_range(3..3, 3);
    assert_eq!(d, Range(2, 8));

    // delete inside delta
    let mut d = Range(2, 5);
    d.add_splice_range(3..4, 0);
    assert_eq!(d, Range(2, 4));

    // modify intersecting right of delta
    let mut d = Range(2, 5);
    d.add_splice_range(4..6, 3);
    assert_eq!(d, Range(2, 7));

    // modify intersecting left of delta
    let mut d = Range(2, 5);
    d.add_splice_range(1..2, 2);
    assert_eq!(d, Range(1, 6));
}

#[test]
fn marks_stay_until_reset() {
    let mut d = Unchanged;
    let points = [5usize, 0, 9, 3];
    for (k, &p) in points.iter().enumerate() {
        d.add(p);
        for &q in &points[..=k] {
            assert!(d.contains(q));
        }
    }
    d.add_range(20..22);
    for &q in &points {
        assert!(d.contains(q));
    }
    assert!(d.contains(20) && d.contains(21));
    assert_eq!(d, Range(0, 22));
    assert_eq!(d.to_range(), 0..22);
}

#[test]
fn splice_on_unchanged_marks_new_window() {
    let mut d = Unchanged;
    d.add_splice_range(3..5, 4);
    assert_eq!(d, Range(3, 7));
}

#[test]
fn splice_deletion_straddling_left_edge() {
    // the deleted window [1, 3) holds the start of the span: the start moves
    // to the window, the end shifts left by two
    let mut d = Range(2, 5);
    d.add_splice_range(1..3, 0);
    assert_eq!(d, Range(1, 3));
}

#[test]
fn splice_deletion_overlapping_the_end() {
    let mut d = Range(2, 5);
    d.add_splice_range(3..8, 1);
    assert_eq!(d, Range(2, 4));
}

#[test]
fn splice_far_right_joins_window() {
    let mut d = Range(1, 2);
    d.add_splice_range(6..7, 2);
    assert_eq!(d, Range(1, 8));
}

#[test]
fn to_range_of_unchanged_is_empty() {
    let d: Delta = Unchanged;
    assert_eq!(d.to_range(), 0..0);
    assert!(!d.contains(usize::MAX));
}
