use maze3d::color::Color;
use maze3d::fixed::ONE;
use maze3d::framebuffer::Framebuffer;
use maze3d::player::{Player, Vector2};
use maze3d::render3d::{
    cell_fraction, column_offset, draw_column, goal_color_at, light_kept, render3d, row_fraction,
    shade_color, texel_along, wall_extent, BLOCK_SIZE,
};
use maze3d::resources::Textures;
use maze3d::trig::{TrigTable, QUARTER, TURN};

fn table() -> TrigTable {
    let quarter = (0..=QUARTER)
        .map(|k| (((k as f64) * std::f64::consts::PI / 2.0 / (QUARTER as f64)).sin() * 1e6).round() as i64)
        .collect();
    TrigTable::new(quarter).unwrap()
}

fn grid(rows: &[&str]) -> Vec<Vec<char>> {
    rows.iter().map(|r| r.chars().collect()).collect()
}

fn maze() -> Vec<Vec<char>> {
    grid(&["#####", "#p  #", "#  |#", "#* g#", "#####"])
}

fn textures() -> Textures {
    let brick = (0..16u8).map(|i| Color::new(10 * i + 5, 200 - 10 * i, i, 255)).collect();
    let stone = (0..16u8).map(|i| Color::new(3 * i, 5 * i, 7 * i, 255)).collect();
    let metal = (0..16u8).map(|i| Color::new(250 - i, i, 2 * i, 255)).collect();
    Textures::new(brick, stone, metal, 4).unwrap()
}

fn looking(x: i64, y: i64, a: i64) -> Player {
    Player { pos: Vector2::new(x * ONE, y * ONE), a, fov: 3840 }
}

fn digest(fb: &Framebuffer) -> u64 {
    let mut h: u64 = 0xcbf29ce484222325;
    for c in &fb.buffer {
        for b in [c.r, c.g, c.b, c.a] {
            h ^= b as u64;
            h = h.wrapping_mul(0x100000001b3);
        }
    }
    h
}

fn column(fb: &Framebuffer, x: u32) -> Vec<Color> {
    (0..fb.height).map(|y| fb.get_pixel(x, y).unwrap()).collect()
}

#[test]
fn cells_are_sixty_four_units_wide() {
    assert_eq!(BLOCK_SIZE, 64);
}

#[test]
fn ray_offsets_sweep_the_field_of_view() {
    let p = looking(0, 0, 0);
    assert_eq!(column_offset(&p, 0, 320), TURN - 1920);
    assert_eq!(column_offset(&p, 160, 320), 0);
    assert_eq!(column_offset(&p, 318, 320), 1896);
    assert_eq!(column_offset(&p, 2, 7), TURN - 823);
    assert_eq!(column_offset(&p, 4, 7), 274);
}

#[test]
fn ray_offsets_do_not_depend_on_the_heading() {
    let p = looking(0, 0, 12_345);
    assert_eq!(column_offset(&p, 160, 320), 0);
    assert_eq!(column_offset(&p, 318, 320), 1896);
}

#[test]
fn ray_offsets_of_extreme_fields_of_view() {
    let p = Player { pos: Vector2::new(0, 0), a: 0, fov: i64::MAX };
    let expected = ((i64::MAX as i128 * 5 / 7) - (i64::MAX as i128 / 2)).rem_euclid(TURN as i128);
    assert_eq!(column_offset(&p, 5, 7) as i128, expected);
    let p = Player { pos: Vector2::new(0, 0), a: 0, fov: i64::MIN };
    let expected =
        ((i64::MIN as i128 * 5).div_euclid(7) - (i64::MIN as i128).div_euclid(2)).rem_euclid(TURN as i128);
    assert_eq!(column_offset(&p, 5, 7) as i128, expected);
}

#[test]
fn wall_extents_for_known_distances() {
    assert_eq!(wall_extent(512, 192 * ONE), (189, 322));
    assert_eq!(wall_extent(320, 160 * ONE), (110, 210));
    assert_eq!(wall_extent(512, 1000 * ONE), (243, 268));
    assert_eq!(wall_extent(511, 77_123_456), (89, 421));
}

#[test]
fn a_near_wall_fills_the_screen() {
    assert_eq!(wall_extent(512, 40 * ONE), (0, 512));
    assert_eq!(wall_extent(512, 50 * ONE), (0, 512));
    assert_eq!(wall_extent(512, 1), (0, 512));
    assert_eq!(wall_extent(u32::MAX, 1), (0, u32::MAX));
}

#[test]
fn a_screen_without_rows_has_no_wall() {
    assert_eq!(wall_extent(0, 100 * ONE), (0, 0));
}

#[test]
fn walls_shrink_with_their_distance() {
    let mut last = 512;
    for corrected in (1..=1000).map(|d| d * ONE + 333) {
        let (top, bottom) = wall_extent(512, corrected);
        assert!(top <= bottom && bottom <= 512);
        assert!(bottom - top <= last, "at {corrected}");
        last = bottom - top;
    }
    assert_eq!(last, 25);
}

#[test]
fn the_goal_pulses_from_row_to_row() {
    let t = table();
    assert_eq!(goal_color_at(&t, 0), Color::new(127, 107, 0, 255));
    assert_eq!(goal_color_at(&t, 1), Color::new(140, 118, 0, 255));
    assert_eq!(goal_color_at(&t, 16), Color::new(254, 214, 0, 255));
    assert_eq!(goal_color_at(&t, 47), Color::new(0, 0, 0, 255));
    assert_eq!(goal_color_at(&t, 100), Color::new(58, 49, 0, 255));
}

#[test]
fn the_pulse_of_the_goal_follows_the_sine_of_a_tenth_of_the_row() {
    let t = table();
    for row in (0..3000u32).step_by(13) {
        let pulse = ((row as f64) * 0.1).sin() * 0.5 + 0.5;
        let c = goal_color_at(&t, row);
        assert!((c.r as f64 - 255.0 * pulse).abs() < 1.1, "row {row}");
        assert!((c.g as f64 - 215.0 * pulse).abs() < 1.1, "row {row}");
        assert_eq!((c.b, c.a), (0, 255));
    }
    goal_color_at(&t, u32::MAX);
}

#[test]
fn light_falls_off_to_a_fifth() {
    assert_eq!(light_kept(0), ONE);
    assert_eq!(light_kept(250 * ONE), 500_000);
    assert_eq!(light_kept(399_999_999), 200_001);
    assert_eq!(light_kept(400 * ONE), 200_000);
    assert_eq!(light_kept(1000 * ONE), 200_000);
    assert_eq!(light_kept(i64::MAX), 200_000);
}

#[test]
fn shading_dims_colour_and_leaves_opacity() {
    assert_eq!(shade_color(Color::new(200, 100, 50, 7), 500_000), Color::new(100, 50, 25, 7));
    assert_eq!(shade_color(Color::new(255, 255, 255, 0), 200_000), Color::new(51, 51, 51, 0));
    assert_eq!(shade_color(Color::new(9, 8, 7, 255), ONE), Color::new(9, 8, 7, 255));
    assert_eq!(shade_color(Color::new(9, 8, 7, 6), 0), Color::new(0, 0, 0, 6));
    assert_eq!(shade_color(Color::new(255, 1, 3, 6), 999_999), Color::new(254, 0, 2, 6));
}

#[test]
fn a_wall_is_as_opaque_as_its_texture() {
    let glass = Textures::new(
        vec![Color::new(200, 100, 50, 90)],
        vec![Color::new(20, 10, 5, 0)],
        vec![Color::new(2, 1, 0, 255)],
        1,
    )
    .unwrap();
    let mut fb = Framebuffer::new(320, 200, Color::black());
    render3d(&mut fb, &looking(160, 160, 0), &maze(), &glass, &table());
    let keep = light_kept(32 * ONE);
    assert_eq!(fb.get_pixel(160, 100), Some(Color::new(187, 93, 46, 90)));
    assert_eq!(fb.get_pixel(160, 100), Some(shade_color(Color::new(200, 100, 50, 90), keep)));
}

#[test]
fn fractions_of_a_cell() {
    assert_eq!(cell_fraction(0), 0);
    assert_eq!(cell_fraction(32 * 1_000_000), 500_000);
    assert_eq!(cell_fraction(64 * 1_000_000), 0);
    assert_eq!(cell_fraction(64 * 1_000_000 - 1), 999_999);
    assert_eq!(cell_fraction(3 * 64 * 1_000_000 + 16_000_000), 250_000);
    assert_eq!(cell_fraction(-1), 999_999);
    assert_eq!(cell_fraction(-16 * 1_000_000), 750_000);
}

#[test]
fn fractions_of_a_strip() {
    assert_eq!(row_fraction(10, 10, 20), 0);
    assert_eq!(row_fraction(15, 10, 20), 500_000);
    assert_eq!(row_fraction(19, 10, 20), 900_000);
    assert_eq!(row_fraction(1, 0, 3), 333_333);
    assert_eq!(row_fraction(u32::MAX - 1, 0, u32::MAX), 999_999);
}

#[test]
fn texels_stay_inside_the_texture() {
    assert_eq!(texel_along(0, 4), 0);
    assert_eq!(texel_along(249_999, 4), 0);
    assert_eq!(texel_along(250_000, 4), 1);
    assert_eq!(texel_along(999_999, 4), 3);
    assert_eq!(texel_along(999_999, 1), 0);
    assert_eq!(texel_along(500_000, 64), 32);
    for size in [1usize, 2, 3, 64, 1000, usize::MAX] {
        for fraction in [0, 1, 499_999, 500_000, 999_998, 999_999] {
            assert!(texel_along(fraction, size) < size);
        }
    }
    assert_eq!(texel_along(999_999, usize::MAX), (usize::MAX as u128 * 999_999 / 1_000_000) as usize);
    assert_eq!(texel_along(-1, 4), 0);
    assert_eq!(texel_along(i64::MIN, usize::MAX), 0);
    assert_eq!(texel_along(ONE, 4), 3);
    assert_eq!(texel_along(i64::MAX, usize::MAX), usize::MAX - 1);
}

#[test]
fn the_view_from_the_start() {
    let mut fb = Framebuffer::new(320, 200, Color::black());
    render3d(&mut fb, &looking(96, 96, 0), &maze(), &textures(), &table());
    assert_eq!(fb.get_pixel(0, 0), Some(Color::black()));
    assert_eq!(fb.get_pixel(0, 100), Some(Color::new(23, 39, 55, 255)));
    assert_eq!(fb.get_pixel(1, 100), Some(Color::new(23, 39, 55, 255)));
    assert_eq!(fb.get_pixel(160, 100), Some(Color::new(16, 27, 38, 255)));
    assert_eq!(fb.get_pixel(318, 100), Some(Color::new(68, 96, 6, 255)));
    assert_eq!(fb.get_pixel(160, 67), Some(Color::black()));
    assert_eq!(fb.get_pixel(160, 131), Some(Color::black()));
    assert_eq!(fb.current_color, Color::new(100, 64, 9, 255));
    assert_eq!(digest(&fb), 0x910001a91b043171);
}

#[test]
fn the_strip_of_a_column_spans_the_projected_wall() {
    let backdrop = Color::new(1, 2, 3, 4);
    let mut fb = Framebuffer::new(320, 200, backdrop);
    render3d(&mut fb, &looking(96, 96, 0), &maze(), &textures(), &table());
    for (x, top, bottom) in [(0u32, 11u32, 188u32), (160, 68, 131), (318, 48, 151)] {
        for y in 0..200 {
            let drawn = fb.get_pixel(x, y) != Some(backdrop);
            assert_eq!(drawn, top <= y && y < bottom, "at ({x}, {y})");
        }
    }
}

#[test]
fn every_sampled_column_is_drawn_twice() {
    let mut fb = Framebuffer::new(320, 200, Color::black());
    render3d(&mut fb, &looking(96, 96, 0), &maze(), &textures(), &table());
    for x in (0..320).step_by(2) {
        assert_eq!(column(&fb, x), column(&fb, x + 1), "columns {x} and {}", x + 1);
    }
}

#[test]
fn the_goal_is_drawn_in_pulsing_gold() {
    let t = table();
    let mut fb = Framebuffer::new(320, 240, Color::black());
    render3d(&mut fb, &looking(160, 224, 0), &maze(), &textures(), &t);
    for y in 0..240 {
        assert_eq!(fb.get_pixel(160, y), Some(goal_color_at(&t, y)));
        assert_eq!(fb.get_pixel(161, y), Some(goal_color_at(&t, y)));
        assert_eq!(fb.get_pixel(0, y), Some(goal_color_at(&t, y)));
    }
    assert_eq!(fb.get_pixel(160, 100), Some(Color::new(58, 49, 0, 255)));
    assert_eq!(fb.get_pixel(161, 239), Some(Color::new(7, 6, 0, 255)));
    assert_eq!(fb.get_pixel(318, 100), Some(Color::new(70, 122, 6, 255)));
    assert_eq!(fb.get_pixel(319, 120), Some(Color::new(108, 84, 10, 255)));
    assert_eq!(fb.current_color, Color::new(146, 47, 14, 255));
    assert_eq!(digest(&fb), 0x16e17c7df51e39c1);
}

#[test]
fn an_upright_wall_is_textured_along_the_other_axis() {
    let mut fb = Framebuffer::new(320, 200, Color::black());
    render3d(&mut fb, &looking(160, 160, 0), &maze(), &textures(), &table());
    assert_eq!(fb.get_pixel(160, 100), Some(Color::new(98, 93, 9, 255)));
    assert_eq!(fb.get_pixel(160, 10), Some(Color::new(23, 168, 1, 255)));
    assert_eq!(fb.get_pixel(10, 100), Some(Color::new(88, 102, 8, 255)));
    assert_eq!(fb.get_pixel(300, 100), Some(Color::new(98, 93, 9, 255)));
    assert_eq!(fb.get_pixel(160, 199), Some(Color::new(135, 56, 13, 255)));
    assert_eq!(digest(&fb), 0x6f04589b8ece27c5);
}

#[test]
fn a_screen_of_odd_width_draws_its_last_column_once() {
    let open = grid(&["  ", "  "]);
    let mut fb = Framebuffer::new(7, 5, Color::new(1, 2, 3, 4));
    let p = Player { pos: Vector2::new(3_500_000, 2_500_000), a: 0, fov: 3840 };
    render3d(&mut fb, &p, &open, &textures(), &table());
    let rows = [
        Color::new(4, 198, 0, 255),
        Color::new(4, 198, 0, 255),
        Color::new(44, 158, 3, 255),
        Color::new(84, 118, 7, 255),
        Color::new(123, 79, 11, 255),
    ];
    for (y, c) in rows.iter().enumerate() {
        assert_eq!(fb.get_pixel(0, y as u32), Some(*c), "row {y}");
    }
    assert_eq!(fb.current_color, Color::new(124, 79, 11, 255));
    assert_eq!(digest(&fb), 0xc10fa46cc02fecc5);
}

#[test]
fn a_player_inside_a_wall_sees_nothing() {
    let mut fb = Framebuffer::new(320, 200, Color::black());
    render3d(&mut fb, &looking(10, 10, 0), &maze(), &textures(), &table());
    assert!(fb.buffer.iter().all(|c| *c == Color::black()));
    assert_eq!(fb.current_color, Color::white_smoke());
}

#[test]
fn a_screen_without_columns_is_left_alone() {
    let mut fb = Framebuffer::new(0, 10, Color::black());
    render3d(&mut fb, &looking(96, 96, 0), &maze(), &textures(), &table());
    assert_eq!(fb.current_color, Color::white());
    assert_eq!(fb.buffer.len(), 0);
}

#[test]
fn rays_that_look_backward_draw_nothing() {
    let backdrop = Color::new(1, 2, 3, 4);
    let mut fb = Framebuffer::new(320, 200, backdrop);
    let p = Player { pos: Vector2::new(96 * ONE, 96 * ONE), a: 0, fov: TURN };
    draw_column(&mut fb, &p, &maze(), &textures(), &table(), 0);
    assert!(fb.buffer.iter().all(|c| *c == backdrop));
    draw_column(&mut fb, &p, &maze(), &textures(), &table(), 160);
    assert!(fb.get_pixel(160, 100) != Some(backdrop));
    assert!(fb.get_pixel(161, 100) != Some(backdrop));
    assert_eq!(fb.get_pixel(159, 100), Some(backdrop));
    assert_eq!(fb.get_pixel(162, 100), Some(backdrop));
}

#[test]
fn one_column_alone_is_what_the_whole_view_shows_there() {
    let mut whole = Framebuffer::new(320, 200, Color::black());
    render3d(&mut whole, &looking(96, 96, 700), &maze(), &textures(), &table());
    let mut one = Framebuffer::new(320, 200, Color::black());
    draw_column(&mut one, &looking(96, 96, 700), &maze(), &textures(), &table(), 42);
    assert_eq!(column(&one, 42), column(&whole, 42));
    assert_eq!(column(&one, 43), column(&whole, 43));
    assert!(column(&one, 44).iter().all(|c| *c == Color::black()));
}

#[test]
fn textures_of_any_size_and_length_are_sampled_safely() {
    let tiny = Textures {
        wall_brick: vec![Color::new(200, 100, 50, 255)],
        wall_stone: vec![Color::new(1, 1, 1, 255)],
        wall_metal: vec![Color::new(2, 2, 2, 255)],
        texture_size: 1000,
    };
    let mut fb = Framebuffer::new(320, 200, Color::black());
    render3d(&mut fb, &looking(160, 160, 0), &maze(), &tiny, &table());
    let keep = light_kept(32 * ONE);
    assert_eq!(fb.get_pixel(160, 100), Some(shade_color(Color::new(200, 100, 50, 255), keep)));
}

#[test]
fn wall_extents_follow_the_projection_in_real_numbers() {
    for height in [1u32, 7, 200, 512, 1080] {
        for tenths in 1..=10_000i64 {
            let corrected = tenths * ONE / 10;
            let distance = tenths as f64 / 10.0;
            let half = height as f64 / 2.0;
            let tall = (half * 100.0 / distance).min(height as f64);
            let top = (half - tall / 2.0).max(0.0);
            let bottom = (half + tall / 2.0).min(height as f64);
            let (t, b) = wall_extent(height, corrected);
            assert!((t as f64 - top).abs() < 1.0 + 1e-9, "top at {height}, {distance}");
            assert!((b as f64 - bottom).abs() < 1.0 + 1e-9, "bottom at {height}, {distance}");
            assert!(t as f64 <= top + 1e-9 && b as f64 <= bottom + 1e-9);
        }
    }
}

#[test]
fn light_follows_the_attenuation_in_real_numbers() {
    for tenths in 0..=10_000i64 {
        let distance = tenths as f64 / 10.0;
        let expected = 1.0 - (distance / 500.0).min(0.8);
        let kept = light_kept(tenths * ONE / 10) as f64 / 1e6;
        assert!((kept - expected).abs() < 2e-6, "at {distance}");
    }
}

#[test]
fn texture_fractions_follow_the_remainder_in_real_numbers() {
    for coord in (0..2_000_000_000i128).step_by(7_777_777) {
        let real = (coord as f64 / 1e6) % 64.0 / 64.0;
        assert!((cell_fraction(coord) as f64 / 1e6 - real).abs() < 2e-6, "at {coord}");
    }
}

#[test]
fn mirrored_columns_show_a_flat_wall_alike() {
    let wall = grid(&["    #", "    #", "    #", "    #", "    #"]);
    let plain = Textures::new(
        vec![Color::new(7, 7, 7, 255); 16],
        vec![Color::new(200, 120, 40, 255); 16],
        vec![Color::new(9, 9, 9, 255); 16],
        4,
    )
    .unwrap();
    let backdrop = Color::new(1, 2, 3, 4);
    let mut fb = Framebuffer::new(320, 320, backdrop);
    render3d(&mut fb, &looking(40, 160, 0), &wall, &plain, &table());
    let keep = light_kept(216 * ONE);
    let middle = column(&fb, 160);
    let (top, bottom) = wall_extent(320, 216 * ONE);
    for (y, c) in middle.iter().enumerate() {
        let painted = top as usize <= y && y < bottom as usize;
        let expected = if painted { shade_color(Color::new(200, 120, 40, 255), keep) } else { backdrop };
        assert_eq!(*c, expected, "row {y}");
    }
    for i in (2..160).step_by(2) {
        let left = column(&fb, i);
        let right = column(&fb, 320 - i);
        assert_eq!(left, right, "columns {i} and {}", 320 - i);
        let first = left.iter().position(|c| *c != backdrop).unwrap() as i64;
        let last = left.iter().rposition(|c| *c != backdrop).unwrap() as i64;
        assert!((first - top as i64).abs() <= 1, "top of column {i}");
        assert!((last + 1 - bottom as i64).abs() <= 1, "bottom of column {i}");
        let paint = left.iter().find(|c| **c != backdrop).unwrap();
        assert!((paint.r as i64 - 113).abs() <= 1 && (paint.g as i64 - 68).abs() <= 1, "column {i}");
    }
}

#[test]
fn mirrored_columns_are_alike_for_every_heading_along_an_axis() {
    let open = vec![vec![' '; 5]; 5];
    let plain = Textures::new(
        vec![Color::new(200, 120, 40, 255); 16],
        vec![Color::new(200, 120, 40, 255); 16],
        vec![Color::new(200, 120, 40, 255); 16],
        4,
    )
    .unwrap();
    let backdrop = Color::new(1, 2, 3, 4);
    for heading in [0, QUARTER, 2 * QUARTER, 3 * QUARTER, -QUARTER, TURN, 5 * QUARTER] {
        let mut fb = Framebuffer::new(320, 320, backdrop);
        render3d(&mut fb, &looking(160, 160, heading), &open, &plain, &table());
        for i in (2..160).step_by(2) {
            assert_eq!(column(&fb, i), column(&fb, 320 - i), "heading {heading}, column {i}");
        }
    }
}
