use tetrust::adjust::{lower_points, rows_below, shift_rows};
use tetrust::point::Point;
use tetrust::progress::BoardTransitionsProgress;
use tetrust::transition::BoardTransition;

fn sample() -> BoardTransition {
    let mut t = BoardTransition::new();
    t.add_points_deleted(vec![Point(3, 1), Point(0, 2), Point(3, 1), Point(1, 1)]);
    t.add_rows_deleted(vec![7, 2, 7, 5]);
    t.add_points_falling(vec![(Point(2, 4), 1), (Point(1, 4), 1), (Point(2, 4), 1), (Point(0, 3), 2)]);
    t
}

#[test]
fn new_transition_is_inert() {
    let t = BoardTransition::new();
    assert!(t.is_inert());
    assert!(t.get_rows_deleted().is_none());
    let t = t.with_points_added(vec![Point(0, 0)]);
    assert!(!t.is_inert());
    assert_eq!(t.get_points_added(), Some(&vec![Point(0, 0)]));
}

#[test]
fn compress_sorts_and_dedups() {
    let mut t = sample();
    t.compress();
    assert_eq!(t.get_points_deleted(), Some(&vec![Point(1, 1), Point(3, 1), Point(0, 2)]));
    assert_eq!(t.get_rows_deleted(), Some(&vec![2, 5, 7]));
    assert_eq!(t.get_points_falling(), Some(&vec![(Point(0, 3), 2), (Point(1, 4), 1), (Point(2, 4), 1)]));
}

#[test]
fn compress_twice_equals_once() {
    let mut once = sample();
    once.compress();
    let mut twice = sample();
    twice.compress();
    twice.compress();
    assert_eq!(once.get_points_deleted(), twice.get_points_deleted());
    assert_eq!(once.get_rows_deleted(), twice.get_rows_deleted());
    assert_eq!(once.get_points_falling(), twice.get_points_falling());
}

#[test]
fn merge_order_does_not_matter_after_compress() {
    let a = || BoardTransition::new().with_rows_deleted(vec![4, 1]).with_points_deleted(vec![Point(2, 2)]);
    let b = || BoardTransition::new().with_rows_deleted(vec![1, 0]).with_points_falling(vec![(Point(1, 5), 2)]);
    let mut ab = a();
    ab.add_from_transition(b());
    ab.compress();
    let mut ba = b();
    ba.add_from_transition(a());
    ba.compress();
    assert_eq!(ab.get_rows_deleted(), Some(&vec![0, 1, 4]));
    assert_eq!(ab.get_rows_deleted(), ba.get_rows_deleted());
    assert_eq!(ab.get_points_deleted(), ba.get_points_deleted());
    assert_eq!(ab.get_points_falling(), ba.get_points_falling());
}

#[test]
fn take_empties_one_collection() {
    let mut t = sample();
    let rows = t.take_rows_deleted();
    assert_eq!(rows, Some(vec![7, 2, 7, 5]));
    assert!(t.get_rows_deleted().is_none());
    assert!(t.take_rows_deleted().is_none());
    assert_eq!(t.take_points_deleted().map(|v| v.len()), Some(4));
    assert_eq!(t.take_points_falling().map(|v| v.len()), Some(4));
    assert!(t.is_inert());
}

#[test]
fn batch_and_incremental_adjustment_agree() {
    let rows = vec![2, 5, 7];
    // removing the rows one at a time lowers each later index by the rows already gone
    assert_eq!(shift_rows(&rows), vec![2, 4, 5]);
    for y in [0, 1, 3, 4, 6, 8, 15, 19] {
        let mut incremental = y;
        for (i, r) in rows.iter().enumerate() {
            if r - (i as i32) < incremental {
                incremental -= 1;
            }
        }
        assert_eq!(y - rows_below(&rows, y) as i32, incremental);
    }
    assert_eq!(lower_points(&rows, &vec![Point(0, 8), Point(1, 3), Point(2, 1)]), vec![Point(0, 5), Point(1, 2), Point(2, 1)]);
}

#[test]
fn progress_tracks_longest_duration() {
    let t = BoardTransition::new().with_rows_deleted(vec![0]);
    let mut p = BoardTransitionsProgress::new().with_board_transition(&t);
    assert_eq!(p.rows_deleted_total, 10);
    assert_eq!(p.points_deleted_total, 0);
    assert_eq!(p.longest_total, 10);
    p = p.with_points_falling_total(25);
    assert_eq!(p.longest_total, 25);
    p = p.with_points_falling_total(0).with_rows_deleted_total(3).with_points_deleted_total(2).with_points_added_total(1);
    assert_eq!(p.longest_total, 3);
    for _ in 0..3 {
        p.next_frame();
        assert!(!p.is_complete());
    }
    p.next_frame();
    assert!(p.is_complete());
}

#[test]
fn compress_dedups_added_points() {
    let mut t = BoardTransition::new().with_points_added(vec![Point(2, 1), Point(0, 0), Point(2, 1)]);
    t.compress();
    assert_eq!(t.get_points_added(), Some(&vec![Point(0, 0), Point(2, 1)]));
}
