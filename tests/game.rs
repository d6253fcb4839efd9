use tetrust::board::Board;
use tetrust::catalog::{default_tetriminos, i_tetrimino, o_tetrimino};
use tetrust::chooser::{padded_seed, TetriminoChooser};
use tetrust::driver_core::{calculate_gravity, default_gravity, DriverConfig};
use tetrust::game_core::GameCore;
use tetrust::generator::{BasicGenerator, CascadeGenerator, PieceGenerator, RecordingGenerator, StickyGenerator, TetriminoGenerator};
use tetrust::orientation::{Direction, Orientation};
use tetrust::point::Point;
use tetrust::recording::{Action, Recording, Replay};
use tetrust::rules::{score_for_clear, Driver, RuleVariant};
use tetrust::transition::BoardTransition;

fn o_only() -> PieceGenerator {
    PieceGenerator::Basic(BasicGenerator::new(vec![o_tetrimino()]))
}

fn i_only() -> PieceGenerator {
    PieceGenerator::Basic(BasicGenerator::new(vec![i_tetrimino()]))
}

#[test]
fn seeds_are_padded_or_cut() {
    let s = padded_seed(&vec![1, 2, 3]);
    assert_eq!(&s[..3], &[1, 2, 3]);
    assert!(s[3..].iter().all(|b| *b == 0));
    let long: Vec<u8> = (0..40).collect();
    let s = padded_seed(&long);
    assert_eq!(s.to_vec(), (0..32).collect::<Vec<u8>>());
}

#[test]
fn chooser_hands_out_each_type_once_per_bag() {
    let mut c = TetriminoChooser::new(default_tetriminos());
    c.set_seed(vec![42]);
    let mut seen: Vec<usize> = (0..7).map(|_| c.choose_tetrimino_type().0).collect();
    seen.sort();
    assert_eq!(seen, vec![0, 1, 2, 3, 4, 5, 6]);
    assert_eq!(c.get_tetrimino_types().len(), 7);
}

#[test]
fn same_seed_same_pieces() {
    let mut a = BasicGenerator::new(default_tetriminos());
    let mut b = BasicGenerator::new(default_tetriminos());
    a.set_seed(vec![9, 9]);
    b.set_seed(vec![9, 9]);
    for _ in 0..20 {
        assert_eq!(a.next().values, b.next().values);
    }
}

#[test]
fn generators_value_cells() {
    let mut basic = BasicGenerator::new(default_tetriminos());
    let p = basic.next_piece();
    assert!(p.values.iter().all(|v| *v == p.values[0]));
    let mut cascade = CascadeGenerator::new(default_tetriminos());
    let first = cascade.next_piece();
    let second = cascade.next_piece();
    assert!(first.values[0] < 7);
    assert!(second.values[0] >= 7 && second.values[0] < 14);
    assert_eq!(cascade.current_index, 2);
    let mut sticky = StickyGenerator::new(default_tetriminos());
    for _ in 0..10 {
        let p = sticky.next_piece();
        assert_eq!(p.values.len(), 4);
    }
    let mut rec = PieceGenerator::Recording(RecordingGenerator::new(default_tetriminos()));
    assert_eq!(rec.next().values.len(), 4);
}

#[test]
fn gravity_table() {
    let g = default_gravity();
    assert_eq!(calculate_gravity(&g, 0), 6000000);
    assert_eq!(calculate_gravity(&g, 14), 42360);
    assert_eq!(calculate_gravity(&g, 40), 42360);
}

#[test]
fn classic_scores() {
    assert_eq!(score_for_clear(1, false), 1);
    assert_eq!(score_for_clear(2, false), 3);
    assert_eq!(score_for_clear(3, true), 5);
    assert_eq!(score_for_clear(4, false), 8);
    assert_eq!(score_for_clear(4, true), 12);
    assert_eq!(score_for_clear(0, true), 0);
}

#[test]
fn core_translate_and_fall() {
    let mut core = GameCore::new(Board::new(10, 20), 3, o_only());
    assert_eq!(core.get_tetrimino_queue_length(), 3);
    assert_eq!(core.get_active_tetrimino().position, Point(5, 19));
    assert!(core.translate(Point(-1, 0)));
    assert_eq!(core.get_active_tetrimino().position, Point(4, 19));
    // the ghost lies on the floor
    let mut ghost = core.get_ghost_tetriminio().clone();
    ghost.sort_by_key(|p| (p.1, p.0));
    assert_eq!(ghost, vec![Point(5, 0), Point(6, 0), Point(5, 1), Point(6, 1)]);
    assert!(!core.translate(Point(-10, 0)));
    assert!(core.try_fall());
    assert_eq!(core.get_active_tetrimino().position, Point(4, 18));
    let (distance, rows) = core.fastfall();
    assert_eq!(distance, 17);
    assert_eq!(rows, Some(vec![]));
    assert_eq!(core.get_board().value_at(Point(5, 0)), Some(0));
    assert_eq!(core.get_active_tetrimino().position, Point(5, 19));
}

#[test]
fn core_fall_places_piece_when_blocked() {
    let mut core = GameCore::new(Board::new(10, 4), 1, o_only());
    // spawn at row 3: the square covers rows 2 and 3
    let mut placed = false;
    for _ in 0..5 {
        let (added, _) = core.fall();
        if added {
            placed = true;
            break;
        }
    }
    assert!(placed);
    assert!(core.get_board().is_point_filled(Point(6, 0)));
}

#[test]
fn rotation_uses_first_fitting_kick() {
    let mut core = GameCore::new(Board::new(10, 20), 3, i_only());
    // the flat I piece at the spawn covers row 18, columns 5..8; turned it covers column 7
    assert!(core.rotate(Direction::Clockwise));
    assert_eq!(core.get_active_tetrimino().orientation, Orientation::Right);
    assert_eq!(core.get_active_tetrimino().position, Point(5, 19));
    let mut pts = core.get_active_tetrimino().get_points();
    pts.sort_by_key(|p| (p.1, p.0));
    assert_eq!(pts, vec![Point(7, 16), Point(7, 17), Point(7, 18), Point(7, 19)]);
    // against the right wall a turn back needs a kick
    while core.translate(Point(1, 0)) {}
    assert_eq!(core.get_active_tetrimino().position, Point(7, 19));
    assert!(core.rotate(Direction::CounterClockwise));
    assert_eq!(core.get_active_tetrimino().orientation, Orientation::Origin);
    // from Right turning counter-clockwise the first kick is (2, 0), which does not fit;
    // the second, (-1, 0), does
    assert_eq!(core.get_active_tetrimino().position, Point(6, 19));
}

#[test]
fn rotation_is_repeatable() {
    let run = || {
        let mut d = Driver::with_generator(RuleVariant::Classic, DriverConfig::new(vec![1, 2, 3]), i_only());
        while d.translate_right() {}
        d.rotate_clockwise();
        d.rotate_clockwise();
        let a = d.get_game_core().get_active_tetrimino();
        (a.position, a.orientation)
    };
    assert_eq!(run(), run());
}

#[test]
fn core_hold_swaps_each_time() {
    let mut core = GameCore::new(Board::new(10, 20), 3, PieceGenerator::Cascade(CascadeGenerator::new(default_tetriminos())));
    let first = core.get_active_tetrimino().tetrimino.values.clone();
    let next = core.get_next_tetrimino(0).values.clone();
    assert!(core.get_held().is_none());
    core.hold();
    assert_eq!(core.get_held().unwrap().values, first);
    assert_eq!(core.get_active_tetrimino().tetrimino.values, next);
    core.hold();
    assert_eq!(core.get_held().unwrap().values, next);
    assert_eq!(core.get_active_tetrimino().tetrimino.values, first);
}

#[test]
fn driver_hold_once_per_drop() {
    let mut d = Driver::with_generator(RuleVariant::Classic, DriverConfig::new(vec![5]), PieceGenerator::Cascade(CascadeGenerator::new(default_tetriminos())));
    let first = d.get_game_core().get_active_tetrimino().tetrimino.values.clone();
    d.hold();
    let after_first = d.get_game_core().get_active_tetrimino().tetrimino.values.clone();
    assert_ne!(after_first, first);
    d.hold();
    assert_eq!(d.get_game_core().get_active_tetrimino().tetrimino.values, after_first);
    assert_eq!(d.get_game_core().get_held().unwrap().values, first);
    // placing a piece allows holding again
    let t = d.fastfall();
    assert!(t.get_points_added().is_some());
    assert!(d.get_driver_core().can_hold);
}

#[test]
fn single_row_clear_scores_one() {
    let mut d = Driver::with_generator(RuleVariant::Classic, DriverConfig::new(vec![]), o_only());
    for x in 0..8 {
        assert!(d.driver_core.core.get_board_mut().fill_point(Point(x, 0), 9));
    }
    // the square spawns over columns 6 and 7; move it to 8 and 9
    assert!(d.translate_right());
    assert!(d.translate_right());
    assert!(!d.translate_right());
    let t = d.fastfall();
    assert_eq!(t.get_rows_deleted(), Some(&vec![0]));
    let height_before = d.get_game_core().get_board().num_active_rows();
    assert_eq!(height_before, 2);
    let level_before = d.get_level();
    let next = d.finish_transition(t);
    assert!(next.is_inert());
    assert_eq!(d.get_game_core().get_board().num_active_rows(), height_before - 1);
    assert_eq!(d.get_score(), 1);
    assert_eq!(d.get_level(), level_before);
    assert_eq!(d.get_game_core().get_board().value_at(Point(8, 0)), Some(0));
}

#[test]
fn back_to_back_four_row_clears() {
    let mut d = Driver::with_generator(RuleVariant::Classic, DriverConfig::new(vec![]), o_only());
    for y in 0..4 {
        for x in 0..10 {
            assert!(d.driver_core.core.get_board_mut().fill_point(Point(x, y), 1));
        }
    }
    let t = BoardTransition::new().with_rows_deleted(vec![3, 0, 2, 1]);
    d.finish_transition(t);
    assert_eq!(d.get_score(), 8);
    assert_eq!(d.get_level(), 1);
    for y in 0..4 {
        for x in 0..10 {
            assert!(d.driver_core.core.get_board_mut().fill_point(Point(x, y), 1));
        }
    }
    d.finish_transition(BoardTransition::new().with_rows_deleted(vec![0, 1, 2, 3]));
    assert_eq!(d.get_score(), 20);
    assert_eq!(d.get_level(), 4);
}

#[test]
fn cascade_clear_lets_shapes_fall() {
    let mut d = Driver::with_generator(RuleVariant::Cascade, DriverConfig::new(vec![]), o_only());
    {
        let b = d.driver_core.core.get_board_mut();
        for x in 0..10 {
            assert!(b.fill_point(Point(x, 1), 1));
        }
        assert!(b.fill_point(Point(3, 2), 7));
    }
    let next = d.finish_transition(BoardTransition::new().with_rows_deleted(vec![1]));
    // the cell above the cleared row now sits at row 1 over an empty row 0
    assert_eq!(next.get_points_falling(), Some(&vec![(Point(3, 1), 1)]));
    let last = d.finish_transition(next);
    assert!(last.is_inert());
    assert_eq!(d.get_game_core().get_board().value_at(Point(3, 0)), Some(7));
}

#[test]
fn fusion_rows_keep_their_wildcards() {
    let mut d = Driver::with_generator(RuleVariant::Fusion, DriverConfig::new(vec![]), o_only());
    {
        let b = d.driver_core.core.get_board_mut();
        for x in 0..10 {
            assert!(b.fill_point(Point(x, 0), if x == 4 { 7 } else { 2 }));
            assert!(b.fill_point(Point(x, 1), 3));
        }
    }
    let t = d.extract_fusion_points(BoardTransition::new().with_rows_deleted(vec![0, 1]));
    assert_eq!(t.get_rows_deleted(), Some(&vec![1]));
    let pts = t.get_points_deleted().unwrap();
    assert_eq!(pts.len(), 9);
    assert!(!pts.contains(&Point(4, 0)));
}

#[test]
fn frames_drop_the_piece_then_lock() {
    let mut config = DriverConfig::new(vec![]);
    config.height = 4;
    config.lock_delay = 2;
    config.gravity = vec![100000];
    let mut d = Driver::with_generator(RuleVariant::Classic, config, o_only());
    let start = d.get_game_core().get_active_tetrimino().position;
    // one frame is not more than a gravity of one frame; the second is
    assert!(d.next_frame().is_inert());
    assert_eq!(d.get_game_core().get_active_tetrimino().position, start);
    assert!(d.next_frame().is_inert());
    assert_eq!(d.get_game_core().get_active_tetrimino().position, Point(start.0, start.1 - 1));
    let mut placed = None;
    for _ in 0..20 {
        let t = d.next_frame();
        if t.get_points_added().is_some() {
            placed = Some(t);
            break;
        }
    }
    assert!(placed.is_some());
    assert!(d.get_game_core().get_board().is_point_filled(Point(6, 0)));
}

#[test]
fn replay_applies_actions_at_their_frames() {
    let mut rec = Recording::new();
    rec.next_frame();
    rec.push_action(Action::TranslateLeft);
    rec.push_action(Action::TranslateLeft);
    rec.next_frame();
    rec.next_frame();
    rec.push_action(Action::Fastfall);
    assert_eq!(rec.actions, vec![(1, Action::TranslateLeft), (1, Action::TranslateLeft), (3, Action::Fastfall)]);
    let mut d = Driver::with_generator(RuleVariant::Classic, DriverConfig::new(vec![]), o_only());
    let mut replay = Replay::new(rec.actions.clone());
    let t = replay.next_frame(&mut d);
    assert!(t.is_inert());
    assert_eq!(d.get_game_core().get_active_tetrimino().position, Point(3, 19));
    replay.next_frame(&mut d);
    let t = replay.next_frame(&mut d);
    assert!(t.get_points_added().is_some());
    assert!(replay.pending.is_empty());
    assert_eq!(d.get_game_core().get_board().value_at(Point(4, 0)), Some(0));
}

fn cascade_with(cells: &[(i32, i32, u32)], full_row: i32) -> Driver {
    let mut d = Driver::with_generator(RuleVariant::Cascade, DriverConfig::new(vec![]), o_only());
    let b = d.driver_core.core.get_board_mut();
    for x in 0..10 {
        assert!(b.fill_point(Point(x, full_row), 9));
    }
    for &(x, y, v) in cells {
        assert!(b.fill_point(Point(x, y), v));
    }
    d
}

#[test]
fn cascade_tower_top_falls_one() {
    let mut d = cascade_with(&[(0, 0, 1), (0, 3, 2)], 2);
    let next = d.finish_transition(BoardTransition::new().with_rows_deleted(vec![2]));
    assert_eq!(next.get_points_falling(), Some(&vec![(Point(0, 2), 1)]));
}

#[test]
fn cascade_tower_with_clearance() {
    let mut d = cascade_with(&[(0, 2, 1), (0, 5, 2)], 4);
    let next = d.finish_transition(BoardTransition::new().with_rows_deleted(vec![4]));
    let mut falls = next.get_points_falling().unwrap().clone();
    falls.sort_by_key(|(p, _)| p.1);
    assert_eq!(falls, vec![(Point(0, 2), 2), (Point(0, 4), 3)]);
    for (p, f) in &falls {
        assert!(p.1 - f >= 0);
    }
}

#[test]
fn clearing_a_row_lowers_the_rows_above() {
    let mut d = cascade_with(&[(3, 1, 4)], 0);
    let before = d.get_game_core().get_board().num_active_rows();
    d.driver_core.finish_transition(BoardTransition::new().with_rows_deleted(vec![0]));
    assert_eq!(d.get_game_core().get_board().num_active_rows(), before - 1);
    assert_eq!(d.get_game_core().get_board().value_at(Point(3, 0)), Some(4));
}

#[test]
fn long_queue_and_wide_board() {
    let mut core = GameCore::new(Board::new(5000, 30), 2000, o_only());
    assert_eq!(core.get_tetrimino_queue_length(), 2000);
    assert_eq!(core.get_active_tetrimino().position, Point(2500, 29));
    assert_eq!(core.get_next_tetrimino(1999).values.len(), 4);
    let (distance, rows) = core.fastfall();
    assert_eq!(distance, 28);
    assert_eq!(rows, Some(vec![]));
}

#[test]
fn settle_finishes_a_chain() {
    let mut d = cascade_with(&[(3, 2, 7)], 1);
    let (rest, steps) = d.settle(BoardTransition::new().with_rows_deleted(vec![1]), 10);
    assert!(rest.is_inert());
    assert_eq!(steps, 2);
    assert_eq!(d.get_game_core().get_board().value_at(Point(3, 0)), Some(7));
    let (rest, steps) = d.settle(BoardTransition::new(), 10);
    assert!(rest.is_inert());
    assert_eq!(steps, 0);
}

#[test]
fn apply_action_moves_the_piece() {
    let mut d = Driver::with_generator(RuleVariant::Classic, DriverConfig::new(vec![]), o_only());
    let t = d.apply_action(Action::TranslateLeft);
    assert!(t.is_inert());
    assert_eq!(d.get_game_core().get_active_tetrimino().position, Point(4, 19));
    let t = d.apply_action(Action::Fall);
    assert!(t.is_inert());
    assert_eq!(d.get_game_core().get_active_tetrimino().position, Point(4, 18));
}
