use maze3d::caster::{cast_ray, Intersect, MAX_DISTANCE};
use maze3d::color::Color;
use maze3d::fixed::ONE;
use maze3d::framebuffer::Framebuffer;
use maze3d::player::Player;
use maze3d::trig::{TrigTable, HALF_TURN, QUARTER, TURN};

fn table() -> TrigTable {
    let quarter = (0..=QUARTER)
        .map(|k| (((k as f64) * std::f64::consts::PI / 2.0 / (QUARTER as f64)).sin() * 1e6).round() as i64)
        .collect();
    TrigTable::new(quarter).unwrap()
}

fn grid(rows: &[&str]) -> Vec<Vec<char>> {
    rows.iter().map(|r| r.chars().collect()).collect()
}

fn bordered() -> Vec<Vec<char>> {
    grid(&["#####", "#p  #", "#   #", "#  g#", "#####"])
}

fn cast(maze: &Vec<Vec<char>>, x: i64, y: i64, angle: i64) -> Intersect {
    let mut fb = Framebuffer::new(320, 320, Color::black());
    cast_ray(&mut fb, maze, &Player::new(x, y), angle, 64, false, &table())
}

#[test]
fn east_from_the_start_meets_the_border_three_cells_on() {
    let hit = cast(&bordered(), 96 * ONE, 96 * ONE, 0);
    assert_eq!(hit, Intersect { distance: 3 * 64 - 32, impact: '#' });
}

#[test]
fn the_four_axes_from_the_start() {
    let maze = bordered();
    assert_eq!(cast(&maze, 96 * ONE, 96 * ONE, QUARTER), Intersect { distance: 160, impact: '#' });
    assert_eq!(cast(&maze, 96 * ONE, 96 * ONE, HALF_TURN), Intersect { distance: 33, impact: '#' });
    assert_eq!(cast(&maze, 96 * ONE, 96 * ONE, 3 * QUARTER), Intersect { distance: 33, impact: '#' });
    assert_eq!(cast(&maze, 96 * ONE, 96 * ONE, TURN), Intersect { distance: 160, impact: '#' });
}

#[test]
fn a_ray_at_the_goal_one_cell_away_reports_the_goal() {
    let hit = cast(&bordered(), (2 * 64 + 32) * ONE, (3 * 64 + 32) * ONE, 0);
    assert_eq!(hit, Intersect { distance: 32, impact: 'g' });
}

#[test]
fn a_diagonal_ray_reaches_the_goal() {
    let hit = cast(&bordered(), 96 * ONE, 96 * ONE, TURN / 8);
    assert_eq!(hit, Intersect { distance: 136, impact: 'g' });
}

#[test]
fn a_ray_into_the_wall_next_door_stops_within_a_cell() {
    let maze = bordered();
    for (x, y, angle) in [
        (3 * 64 + 1, 96, 0),
        (3 * 64 + 40, 96, 0),
        (64 + 62, 96, HALF_TURN),
        (64, 96, HALF_TURN),
        (96, 64 + 62, 3 * QUARTER),
        (96, 3 * 64 + 1, QUARTER),
    ] {
        let hit = cast(&maze, x * ONE, y * ONE, angle);
        assert!(hit.distance < 64, "from ({x}, {y}) at {angle}: {hit:?}");
        assert_eq!(hit.impact, '#');
    }
}

#[test]
fn a_ray_from_the_near_face_of_its_cell_takes_a_whole_cell() {
    let hit = cast(&bordered(), 3 * 64 * ONE, 96 * ONE, 0);
    assert_eq!(hit, Intersect { distance: 64, impact: '#' });
    let hit = cast(&bordered(), 3 * 64 * ONE + ONE / 2, 96 * ONE, 0);
    assert_eq!(hit, Intersect { distance: 64, impact: '#' });
}

#[test]
fn a_ray_that_starts_in_a_wall_stops_at_once() {
    let hit = cast(&bordered(), 10 * ONE, 10 * ONE, 0);
    assert_eq!(hit, Intersect { distance: 0, impact: '#' });
}

#[test]
fn a_ray_that_starts_outside_the_world_meets_nothing() {
    let maze = bordered();
    assert_eq!(cast(&maze, -1, 96 * ONE, 0), Intersect { distance: 0, impact: ' ' });
    assert_eq!(cast(&maze, 96 * ONE, -1, 0), Intersect { distance: 0, impact: ' ' });
    assert_eq!(cast(&maze, 320 * ONE, 96 * ONE, 0), Intersect { distance: 0, impact: ' ' });
    assert_eq!(cast(&maze, 96 * ONE, 320 * ONE, 0), Intersect { distance: 0, impact: ' ' });
    assert_eq!(cast(&maze, i64::MAX, i64::MAX, 1234), Intersect { distance: 0, impact: ' ' });
    assert_eq!(cast(&maze, i64::MIN, i64::MIN, 1234), Intersect { distance: 0, impact: ' ' });
}

#[test]
fn a_ray_cast_outward_from_the_edge_of_the_world_meets_nothing() {
    let open = grid(&["     ", "     ", "     ", "     ", "     "]);
    assert_eq!(cast(&open, 0, 96 * ONE, HALF_TURN), Intersect { distance: 1, impact: ' ' });
    assert_eq!(cast(&open, 96 * ONE, 0, 3 * QUARTER), Intersect { distance: 1, impact: ' ' });
    assert_eq!(cast(&open, 0, 0, HALF_TURN + 2000), Intersect { distance: 1, impact: ' ' });
    assert_eq!(
        cast(&open, 320 * ONE - 1, 96 * ONE, 0),
        Intersect { distance: 1, impact: ' ' }
    );
    assert_eq!(
        cast(&open, 96 * ONE, 320 * ONE - 1, QUARTER),
        Intersect { distance: 1, impact: ' ' }
    );
}

#[test]
fn a_ray_that_leaves_the_grid_inside_the_world_meets_nothing() {
    let small = grid(&["  ", "  "]);
    let hit = cast(&small, 32 * ONE, 32 * ONE, 0);
    assert_eq!(hit, Intersect { distance: 96, impact: ' ' });
    let hit = cast(&small, 32 * ONE, 32 * ONE, QUARTER);
    assert_eq!(hit, Intersect { distance: 96, impact: ' ' });
}

#[test]
fn an_empty_maze_stops_every_ray_at_once() {
    let empty: Vec<Vec<char>> = Vec::new();
    assert_eq!(cast(&empty, 5 * ONE, 5 * ONE, 0), Intersect { distance: 0, impact: ' ' });
}

#[test]
fn an_unhindered_ray_gives_up_at_the_distance_cap() {
    let wide: Vec<Vec<char>> = vec![vec![' '; 40]];
    let mut fb = Framebuffer::new(2000, 64, Color::black());
    let hit = cast_ray(&mut fb, &wide, &Player::new(ONE, 32 * ONE), 0, 64, false, &table());
    assert_eq!(MAX_DISTANCE, 1000);
    assert_eq!(hit, Intersect { distance: 1000, impact: ' ' });
}

#[test]
fn a_wall_at_the_last_step_before_the_cap_is_met() {
    let mut row = vec![' '; 40];
    row[1000 / 64] = '*';
    let wide = vec![row];
    let mut fb = Framebuffer::new(2000, 64, Color::black());
    let hit = cast_ray(&mut fb, &wide, &Player::new(0, 32 * ONE), 0, 64, false, &table());
    assert_eq!(hit, Intersect { distance: 960, impact: '*' });
    let hit = cast_ray(&mut fb, &wide, &Player::new(-39 * ONE, 32 * ONE), 0, 64, false, &table());
    assert_eq!(hit, Intersect { distance: 0, impact: ' ' });
}

#[test]
fn the_start_marker_does_not_stop_a_ray() {
    let maze = grid(&["#####", "# p #", "#####"]);
    let hit = cast(&maze, 70 * ONE, 96 * ONE, 0);
    assert_eq!(hit, Intersect { distance: 256 - 70, impact: '#' });
}

#[test]
fn every_other_symbol_stops_a_ray() {
    for symbol in ['#', '*', '+', '-', '|', 'g', 'x', '?'] {
        let maze = vec![vec![' ', symbol]];
        let hit = cast(&maze, 10 * ONE, 10 * ONE, 0);
        assert_eq!(hit, Intersect { distance: 54, impact: symbol });
    }
}

#[test]
fn casting_sets_the_drawing_colour_and_draws_nothing_unasked() {
    let mut fb = Framebuffer::new(320, 320, Color::black());
    let before = fb.buffer.clone();
    cast_ray(&mut fb, &bordered(), &Player::new(96 * ONE, 96 * ONE), 0, 64, false, &table());
    assert_eq!(fb.current_color, Color::white_smoke());
    assert_eq!(fb.buffer, before);
}

#[test]
fn casting_with_a_trace_plots_every_step_before_the_hit() {
    let mut fb = Framebuffer::new(320, 320, Color::black());
    let hit = cast_ray(&mut fb, &bordered(), &Player::new(96 * ONE, 96 * ONE), 0, 64, true, &table());
    assert_eq!(hit.distance, 160);
    for x in 0..320u32 {
        let expected = if (96..256).contains(&x) { Color::white_smoke() } else { Color::black() };
        assert_eq!(fb.get_pixel(x, 96), Some(expected), "at {x}");
    }
    let plotted = fb.buffer.iter().filter(|c| **c == Color::white_smoke()).count();
    assert_eq!(plotted, 160);
}

#[test]
fn a_traced_diagonal_plots_the_whole_part_of_each_step() {
    let mut fb = Framebuffer::new(320, 320, Color::black());
    let t = table();
    let hit = cast_ray(&mut fb, &bordered(), &Player::new(96 * ONE, 96 * ONE), TURN / 8, 64, true, &t);
    assert_eq!(hit.distance, 136);
    for d in 0..136i64 {
        let x = (96 * ONE + d * t.cos(TURN / 8)) / ONE;
        let y = (96 * ONE + d * t.sin(TURN / 8)) / ONE;
        assert_eq!(fb.get_pixel(x as u32, y as u32), Some(Color::white_smoke()));
    }
    let x = (96 * ONE + 136 * t.cos(TURN / 8)) / ONE;
    assert_eq!(fb.get_pixel(x as u32, x as u32), Some(Color::black()));
}

#[test]
fn the_point_of_the_hit_lies_in_the_cell_that_stopped_the_ray() {
    let maze = grid(&["#####", "#p *#", "# | #", "#  g#", "#####"]);
    let t = table();
    for angle in (0..TURN).step_by(97) {
        let hit = cast(&maze, 96 * ONE, 96 * ONE, angle);
        assert!(hit.impact != ' ', "the maze is closed");
        let x = 96 * ONE + (hit.distance as i64) * t.cos(angle);
        let y = 96 * ONE + (hit.distance as i64) * t.sin(angle);
        let col = (x / ONE / 64) as usize;
        let row = (y / ONE / 64) as usize;
        assert_eq!(maze[row][col], hit.impact, "at angle {angle}");
        let x = 96 * ONE + (hit.distance as i64 - 1) * t.cos(angle);
        let y = 96 * ONE + (hit.distance as i64 - 1) * t.sin(angle);
        let before = maze[(y / ONE / 64) as usize][(x / ONE / 64) as usize];
        assert!(before == ' ' || before == 'p', "at angle {angle}");
    }
}

#[test]
fn mirrored_rays_at_a_flat_wall_stop_at_the_same_distance() {
    let maze = grid(&["     #", "     #", "     #", "     #", "     #"]);
    let t = table();
    for delta in [0, 100, 500, 1000, 1500, 1700] {
        let mut fb = Framebuffer::new(384, 320, Color::black());
        let player = Player::new(40 * ONE, 160 * ONE);
        let left = cast_ray(&mut fb, &maze, &player, -delta, 64, false, &t);
        let right = cast_ray(&mut fb, &maze, &player, delta, 64, false, &t);
        assert_eq!(left, right, "at {delta}");
        assert_eq!(left.impact, '#');
        let corrected = (left.distance as i64) * t.cos(delta);
        assert!(corrected >= 280 * ONE && corrected < 281 * ONE, "at {delta}: {corrected}");
    }
}

#[test]
fn the_world_ends_where_the_framebuffer_ends() {
    let maze = bordered();
    let mut fb = Framebuffer::new(200, 320, Color::black());
    let hit = cast_ray(&mut fb, &maze, &Player::new(96 * ONE, 96 * ONE), 0, 64, false, &table());
    assert_eq!(hit, Intersect { distance: 104, impact: ' ' });
}

#[test]
fn the_march_follows_the_ray_in_real_numbers() {
    let maze = grid(&["#####", "#p *#", "# | #", "#  g#", "#####"]);
    let mut differing = 0;
    for angle in (0..TURN).step_by(11) {
        let hit = cast(&maze, 100 * ONE, 110 * ONE, angle);
        let a = (angle as f64) * 2.0 * std::f64::consts::PI / (TURN as f64);
        let mut d = 0.0f64;
        let expected = loop {
            let x = 100.0 + d * a.cos();
            let y = 110.0 + d * a.sin();
            let cell = maze[(y as usize) / 64][(x as usize) / 64];
            if cell != ' ' && cell != 'p' {
                break (d as u32, cell);
            }
            d += 1.0;
        };
        if (hit.distance, hit.impact) != expected {
            differing += 1;
            assert!((hit.distance as i64 - expected.0 as i64).abs() <= 1, "at {angle}");
        }
    }
    assert!(differing <= 2, "{differing} rays differ");
}
