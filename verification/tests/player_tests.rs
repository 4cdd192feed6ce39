use maze3d::fixed::ONE;
use maze3d::game_state::{Frame, GameManager, GameState};
use maze3d::input::{is_valid_position, process_events, Controls, MOVE_SPEED, ROTATION_SPEED};
use maze3d::player::{cell_index, Player, Vector2, SIXTH_TURN};
use maze3d::trig::{TrigTable, QUARTER, TURN};

fn table() -> TrigTable {
    let quarter = (0..=QUARTER)
        .map(|k| (((k as f64) * std::f64::consts::PI / 2.0 / (QUARTER as f64)).sin() * 1e6).round() as i64)
        .collect();
    TrigTable::new(quarter).unwrap()
}

fn grid(rows: &[&str]) -> Vec<Vec<char>> {
    rows.iter().map(|r| r.chars().collect()).collect()
}

fn maze() -> Vec<Vec<char>> {
    grid(&["#####", "#p  #", "#   #", "#  g#", "#####"])
}

const IDLE: Controls = Controls { left: false, right: false, forward: false, backward: false };

#[test]
fn a_new_player_looks_and_sees_a_sixth_of_a_turn() {
    let p = Player::new(5, -7);
    assert_eq!(p.pos, Vector2 { x: 5, y: -7 });
    assert_eq!(p.a, TURN / 6);
    assert_eq!(p.fov, TURN / 6);
    assert_eq!(SIXTH_TURN, 3840);
}

#[test]
fn the_player_starts_in_the_middle_of_the_start_cell() {
    let p = Player::from_maze(&maze(), 64).unwrap();
    assert_eq!(p, Player::new(96 * ONE, 96 * ONE));
    let p = Player::from_maze(&grid(&["   ", "  p"]), 10).unwrap();
    assert_eq!(p.pos, Vector2::new(25 * ONE, 15 * ONE));
    let p = Player::from_maze(&grid(&["p"]), 7).unwrap();
    assert_eq!(p.pos, Vector2::new(3 * ONE, 3 * ONE));
}

#[test]
fn the_first_start_marker_counts() {
    let p = Player::from_maze(&grid(&["    ", "  pp", "p   "]), 64).unwrap();
    assert_eq!(p.pos, Vector2::new((2 * 64 + 32) * ONE, (64 + 32) * ONE));
}

#[test]
fn a_maze_without_a_start_has_no_player() {
    assert_eq!(Player::from_maze(&grid(&["###", "# g", "###"]), 64), None);
    assert_eq!(Player::from_maze(&Vec::new(), 64), None);
    assert_eq!(Player::from_maze(&vec![Vec::new(), Vec::new()], 64), None);
}

#[test]
fn rows_of_different_lengths_are_searched_to_their_ends() {
    let p = Player::from_maze(&grid(&["#", "####p", "##"]), 2).unwrap();
    assert_eq!(p.pos, Vector2::new(9 * ONE, 3 * ONE));
}

#[test]
fn victory_is_standing_on_the_goal() {
    let m = maze();
    assert!(Player::new((3 * 64 + 1) * ONE, (3 * 64 + 63) * ONE).check_victory(&m, 64));
    assert!(Player::new(3 * 64 * ONE, 3 * 64 * ONE).check_victory(&m, 64));
    assert!(!Player::new(3 * 64 * ONE - 1, 3 * 64 * ONE).check_victory(&m, 64));
    assert!(!Player::new(96 * ONE, 96 * ONE).check_victory(&m, 64));
    assert!(!Player::new(4 * 64 * ONE, 3 * 64 * ONE).check_victory(&m, 64));
    assert!(!Player::new(5 * 64 * ONE, 3 * 64 * ONE).check_victory(&m, 64));
    assert!(!Player::new(3 * 64 * ONE, 5 * 64 * ONE).check_victory(&m, 64));
    assert!(!Player::new(i64::MAX, i64::MAX).check_victory(&m, 64));
}

#[test]
fn a_coordinate_below_zero_counts_as_zero() {
    let m = grid(&["g ", "  "]);
    assert!(Player::new(-5 * ONE, -900 * ONE).check_victory(&m, 64));
    assert!(Player::new(i64::MIN, 0).check_victory(&m, 64));
    assert_eq!(cell_index(-1, 64), 0);
    assert_eq!(cell_index(64 * ONE - 1, 64), 0);
    assert_eq!(cell_index(64 * ONE, 64), 1);
    assert_eq!(cell_index(i64::MAX, 1), (i64::MAX / ONE) as u64);
}

#[test]
fn where_the_player_may_stand() {
    let m = maze();
    assert!(is_valid_position(96 * ONE, 96 * ONE, &m, 64));
    assert!(is_valid_position(128 * ONE, 64 * ONE, &m, 64));
    assert!(is_valid_position((3 * 64 + 5) * ONE, (3 * 64 + 5) * ONE, &m, 64));
    assert!(!is_valid_position(10 * ONE, 96 * ONE, &m, 64));
    assert!(!is_valid_position(64 * ONE - 1, 96 * ONE, &m, 64));
    assert!(!is_valid_position(-1, 96 * ONE, &m, 64));
    assert!(!is_valid_position(96 * ONE, -1, &m, 64));
    assert!(!is_valid_position(5 * 64 * ONE, 96 * ONE, &m, 64));
    assert!(!is_valid_position(96 * ONE, 5 * 64 * ONE, &m, 64));
    assert!(!is_valid_position(i64::MAX, i64::MAX, &m, 64));
    assert!(!is_valid_position(0, 0, &grid(&["x"]), 64));
}

#[test]
fn the_speeds_of_the_player() {
    assert_eq!(MOVE_SPEED, 3);
    assert_eq!(ROTATION_SPEED * 120, TURN);
}

#[test]
fn no_control_no_change() {
    let mut p = Player { pos: Vector2::new(96 * ONE, 96 * ONE), a: -77, fov: 99 };
    process_events(&IDLE, &mut p, &maze(), 64, &table());
    assert_eq!(p, Player { pos: Vector2::new(96 * ONE, 96 * ONE), a: -77, fov: 99 });
}

#[test]
fn turning_left_and_right() {
    let mut p = Player::new(96 * ONE, 96 * ONE);
    process_events(&Controls { left: true, ..IDLE }, &mut p, &maze(), 64, &table());
    assert_eq!(p.a, 3840 - 192);
    process_events(&Controls { right: true, ..IDLE }, &mut p, &maze(), 64, &table());
    process_events(&Controls { right: true, ..IDLE }, &mut p, &maze(), 64, &table());
    assert_eq!(p.a, 3840 + 192);
    process_events(&Controls { left: true, right: true, ..IDLE }, &mut p, &maze(), 64, &table());
    assert_eq!(p.a, 3840 + 192);
    assert_eq!(p.pos, Vector2::new(96 * ONE, 96 * ONE));
}

#[test]
fn a_turn_adds_to_the_heading_and_takes_away_from_it() {
    let mut p = Player { pos: Vector2::new(96 * ONE, 96 * ONE), a: 0, fov: 3840 };
    process_events(&Controls { left: true, ..IDLE }, &mut p, &maze(), 64, &table());
    assert_eq!(p.a, -192);
    process_events(&Controls { left: true, ..IDLE }, &mut p, &maze(), 64, &table());
    assert_eq!(p.a, -384);
    process_events(&Controls { right: true, ..IDLE }, &mut p, &maze(), 64, &table());
    assert_eq!(p.a, -192);
    let mut p = Player { pos: Vector2::new(96 * ONE, 96 * ONE), a: TURN - 100, fov: 3840 };
    process_events(&Controls { right: true, ..IDLE }, &mut p, &maze(), 64, &table());
    assert_eq!(p.a, TURN + 92);
    let mut p = Player { pos: Vector2::new(96 * ONE, 96 * ONE), a: 100, fov: 3840 };
    process_events(&Controls { left: true, ..IDLE }, &mut p, &maze(), 64, &table());
    assert_eq!(p.a, -92);
}

#[test]
fn a_turn_before_a_wall_is_made_and_the_step_refused() {
    let walled = grid(&["#####", "#p| #", "#   #", "#   #", "#####"]);
    let mut p = Player { pos: Vector2::new(126 * ONE, 96 * ONE), a: 0, fov: 3840 };
    process_events(&Controls { left: true, forward: true, ..IDLE }, &mut p, &walled, 64, &table());
    assert_eq!(p.pos, Vector2::new(126 * ONE, 96 * ONE));
    assert_eq!(p.a, -192);
    assert_eq!(p.fov, 3840);
}

#[test]
fn a_step_along_a_heading_below_zero() {
    let mut p = Player { pos: Vector2::new(96 * ONE, 96 * ONE), a: -QUARTER, fov: 3840 };
    process_events(&Controls { forward: true, ..IDLE }, &mut p, &maze(), 64, &table());
    assert_eq!(p.pos, Vector2::new(96 * ONE, 93 * ONE));
    assert_eq!(p.a, -QUARTER);
}

#[test]
fn a_heading_at_the_end_of_its_range_wraps_to_the_same_angle() {
    let mut p = Player { pos: Vector2::new(96 * ONE, 96 * ONE), a: i64::MIN, fov: 3840 };
    process_events(&Controls { left: true, ..IDLE }, &mut p, &maze(), 64, &table());
    assert_eq!(p.a as i128, (i64::MIN as i128 - 192).rem_euclid(TURN as i128));
    let mut p = Player { pos: Vector2::new(96 * ONE, 96 * ONE), a: i64::MAX, fov: 3840 };
    process_events(&Controls { right: true, ..IDLE }, &mut p, &maze(), 64, &table());
    assert_eq!(p.a as i128, (i64::MAX as i128 + 192).rem_euclid(TURN as i128));
    let mut p = Player { pos: Vector2::new(96 * ONE, 96 * ONE), a: i64::MIN + 192, fov: 3840 };
    process_events(&Controls { left: true, ..IDLE }, &mut p, &maze(), 64, &table());
    assert_eq!(p.a, i64::MIN);
    let mut p = Player { pos: Vector2::new(96 * ONE, 96 * ONE), a: i64::MAX - 192, fov: 3840 };
    process_events(&Controls { right: true, ..IDLE }, &mut p, &maze(), 64, &table());
    assert_eq!(p.a, i64::MAX);
}

#[test]
fn stepping_forward_and_backward() {
    let mut p = Player::new(96 * ONE, 96 * ONE);
    process_events(&Controls { forward: true, ..IDLE }, &mut p, &maze(), 64, &table());
    assert_eq!(p.pos, Vector2::new(96 * ONE + 1_500_000, 96 * ONE + 2_598_075));
    process_events(&Controls { backward: true, ..IDLE }, &mut p, &maze(), 64, &table());
    assert_eq!(p.pos, Vector2::new(96 * ONE, 96 * ONE));
    process_events(&Controls { forward: true, backward: true, ..IDLE }, &mut p, &maze(), 64, &table());
    assert_eq!(p.pos, Vector2::new(96 * ONE, 96 * ONE));
}

#[test]
fn a_step_follows_the_heading_after_the_turn() {
    let mut p = Player::new(96 * ONE, 96 * ONE);
    process_events(&Controls { left: true, forward: true, ..IDLE }, &mut p, &maze(), 64, &table());
    assert_eq!(p.a, 3648);
    assert_eq!(p.pos, Vector2::new(96 * ONE + 1_633_917, 96 * ONE + 2_516_013));
}

#[test]
fn walls_stop_the_player() {
    let mut p = Player { pos: Vector2::new(65 * ONE, 96 * ONE), a: 0, fov: 3840 };
    process_events(&Controls { backward: true, ..IDLE }, &mut p, &maze(), 64, &table());
    assert_eq!(p.pos, Vector2::new(65 * ONE, 96 * ONE));
    process_events(&Controls { forward: true, ..IDLE }, &mut p, &maze(), 64, &table());
    assert_eq!(p.pos, Vector2::new(68 * ONE, 96 * ONE));
    process_events(&Controls { backward: true, ..IDLE }, &mut p, &maze(), 64, &table());
    assert_eq!(p.pos, Vector2::new(65 * ONE, 96 * ONE));
    process_events(&Controls { forward: true, backward: true, ..IDLE }, &mut p, &maze(), 64, &table());
    assert_eq!(p.pos, Vector2::new(65 * ONE, 96 * ONE));
}

#[test]
fn a_blocked_step_forward_leaves_the_step_backward() {
    let mut p = Player { pos: Vector2::new(255 * ONE, 96 * ONE), a: 0, fov: 3840 };
    process_events(&Controls { forward: true, backward: true, ..IDLE }, &mut p, &maze(), 64, &table());
    assert_eq!(p.pos, Vector2::new(252 * ONE, 96 * ONE));
}

#[test]
fn the_goal_can_be_entered() {
    let mut p = Player { pos: Vector2::new(190 * ONE, 224 * ONE), a: 0, fov: 3840 };
    process_events(&Controls { forward: true, ..IDLE }, &mut p, &maze(), 64, &table());
    assert_eq!(p.pos, Vector2::new(193 * ONE, 224 * ONE));
    assert!(p.check_victory(&maze(), 64));
}

#[test]
fn a_player_at_the_end_of_the_range_stays() {
    let mut p = Player { pos: Vector2::new(i64::MAX, i64::MAX), a: 0, fov: 3840 };
    process_events(&Controls { forward: true, ..IDLE }, &mut p, &maze(), 64, &table());
    assert_eq!(p.pos, Vector2::new(i64::MAX, i64::MAX));
    let mut p = Player { pos: Vector2::new(i64::MIN, i64::MIN), a: 0, fov: 3840 };
    process_events(&Controls { backward: true, ..IDLE }, &mut p, &maze(), 64, &table());
    assert_eq!(p.pos, Vector2::new(i64::MIN, i64::MIN));
}

#[test]
fn a_new_game_shows_the_menu() {
    assert_eq!(GameManager::new(), GameManager { state: GameState::Menu, level_time: 0 });
}

#[test]
fn reset_starts_a_level() {
    let mut g = GameManager { state: GameState::Victory, level_time: 77 };
    g.reset();
    assert_eq!(g, GameManager { state: GameState::Playing, level_time: 0 });
}

const QUIET: Frame = Frame { start: false, leave: false, reached_goal: false, elapsed: 16_000 };

#[test]
fn the_menu_waits_for_the_start_key() {
    let mut g = GameManager::new();
    assert!(!g.update(&QUIET));
    assert!(!g.update(&Frame { leave: true, reached_goal: true, ..QUIET }));
    assert_eq!(g, GameManager::new());
    assert!(g.update(&Frame { start: true, ..QUIET }));
    assert_eq!(g, GameManager { state: GameState::Playing, level_time: 0 });
}

#[test]
fn the_clock_runs_while_a_level_is_played() {
    let mut g = GameManager { state: GameState::Playing, level_time: 0 };
    assert!(!g.update(&QUIET));
    assert!(!g.update(&Frame { start: true, leave: true, ..QUIET }));
    assert_eq!(g, GameManager { state: GameState::Playing, level_time: 32_000 });
    assert!(!g.update(&Frame { reached_goal: true, ..QUIET }));
    assert_eq!(g, GameManager { state: GameState::Victory, level_time: 48_000 });
}

#[test]
fn the_clock_stops_at_the_end_of_its_range() {
    let mut g = GameManager { state: GameState::Playing, level_time: i64::MAX - 5 };
    g.update(&QUIET);
    assert_eq!(g.level_time, i64::MAX);
    let mut g = GameManager { state: GameState::Playing, level_time: i64::MIN + 5 };
    g.update(&Frame { elapsed: -6, ..QUIET });
    assert_eq!(g.level_time, i64::MIN);
}

#[test]
fn the_victory_screen_restarts_or_leaves() {
    let won = GameManager { state: GameState::Victory, level_time: 5 * ONE };
    let mut g = won;
    assert!(!g.update(&Frame { reached_goal: true, ..QUIET }));
    assert_eq!(g, won);
    assert!(g.update(&Frame { start: true, leave: true, ..QUIET }));
    assert_eq!(g, GameManager { state: GameState::Playing, level_time: 0 });
    let mut g = won;
    assert!(g.update(&Frame { leave: true, ..QUIET }));
    assert_eq!(g, GameManager { state: GameState::Menu, level_time: 5 * ONE });
}
