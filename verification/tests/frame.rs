use torus::angle::{sweep, RING_STEP_MICRO, TUBE_STEP_MICRO};
use torus::fixed::ONE;
use torus::shade::shade;
use torus::{Angle, Point, Torus};

fn angle(radians: f64) -> Angle {
    let cos = (radians.cos() * 1e18).round() as i64;
    let sin = (radians.sin() * 1e18).round() as i64;
    Angle::new(cos, sin).unwrap()
}

fn table(step: i64) -> Vec<Angle> {
    let mut angles = Vec::new();
    for micro in sweep(step) {
        angles.push(angle(micro as f64 / 1e6));
    }
    angles
}

fn donut() -> Torus {
    let outer = table(RING_STEP_MICRO);
    let inner = table(TUBE_STEP_MICRO);
    let mut torus = Torus::create_torus(5 * ONE, 2 * ONE, &outer, &inner);
    torus.rotate(angle(1.0), angle(0.0));
    torus
}

fn at(x: i64, y: i64, z: i64) -> Point {
    Point { x, y, z }
}

fn rows(frame: &str) -> Vec<Vec<char>> {
    let mut all = Vec::new();
    let mut row = Vec::new();
    for c in frame.chars() {
        if c == '\n' {
            all.push(row);
            row = Vec::new();
        } else {
            row.push(c);
        }
    }
    assert!(row.is_empty());
    all
}

fn blank() -> String {
    let mut text = String::new();
    for _ in 0..40 {
        for _ in 0..80 {
            text.push(' ');
        }
        text.push('\n');
    }
    text
}

#[test]
fn glyph_boundaries_at_peak_one() {
    let peak = 1_000_000_000i128;
    assert_eq!(shade(1, 950_000_000, peak), '$');
    assert_eq!(shade(1, 951_000_000, peak), '@');
    assert_eq!(shade(1, 0, peak), '.');
}

#[test]
fn glyph_thresholds_are_strict() {
    let peak = 1_000_000_000i128;
    assert_eq!(shade(1, 1_000_000_000, peak), '@');
    assert_eq!(shade(1, 950_000_001, peak), '@');
    assert_eq!(shade(1, 950_000_000, peak), '$');
    assert_eq!(shade(1, 900_000_001, peak), '$');
    assert_eq!(shade(1, 900_000_000, peak), '#');
    assert_eq!(shade(1, 800_000_001, peak), '#');
    assert_eq!(shade(1, 800_000_000, peak), '*');
    assert_eq!(shade(1, 700_000_001, peak), '*');
    assert_eq!(shade(1, 700_000_000, peak), '!');
    assert_eq!(shade(1, 600_000_001, peak), '!');
    assert_eq!(shade(1, 600_000_000, peak), '=');
    assert_eq!(shade(1, 500_000_001, peak), '=');
    assert_eq!(shade(1, 500_000_000, peak), ';');
    assert_eq!(shade(1, 400_000_001, peak), ';');
    assert_eq!(shade(1, 400_000_000, peak), '~');
    assert_eq!(shade(1, 300_000_001, peak), '~');
    assert_eq!(shade(1, 300_000_000, peak), ':');
    assert_eq!(shade(1, 200_000_001, peak), ':');
    assert_eq!(shade(1, 200_000_000, peak), ',');
    assert_eq!(shade(1, 100_000_001, peak), ',');
    assert_eq!(shade(1, 100_000_000, peak), '.');
    assert_eq!(shade(1, 1, peak), '.');
    assert_eq!(shade(1, -1, peak), '.');
    assert_eq!(shade(1, -2_000_000_000, peak), '.');
}

#[test]
fn glyph_is_measured_against_the_peak() {
    assert_eq!(shade(5, 96, 100), '@');
    assert_eq!(shade(5, 95, 100), '$');
    assert_eq!(shade(5, 19, 20), '$');
    assert_eq!(shade(5, 20, 20), '@');
    assert_eq!(shade(5, 2, 20), '.');
    assert_eq!(shade(5, 3, 20), ',');
    assert_eq!(shade(5, 1, 1), '@');
    assert_eq!(shade(5, 200, 100), '@');
    assert_eq!(shade(5, 7, 3), '@');
}

#[test]
fn glyph_of_an_empty_cell_is_a_space() {
    assert_eq!(shade(0, 1_000_000_000, 1_000_000_000), ' ');
    assert_eq!(shade(0, 0, 1_000_000_000), ' ');
    assert_eq!(shade(0, -5, 7), ' ');
}

#[test]
fn glyph_without_a_positive_peak_is_a_space() {
    assert_eq!(shade(1, 0, 0), ' ');
    assert_eq!(shade(1, -5, 0), ' ');
    assert_eq!(shade(1, 5, 0), ' ');
    assert_eq!(shade(1, 5, -1), ' ');
    assert_eq!(shade(1, -5, -1), ' ');
}

#[test]
fn glyph_at_the_ends_of_the_range() {
    let most = 959_230_691_832_896_684_032i128;
    assert_eq!(shade(1, most, most), '@');
    assert_eq!(shade(1, -most, most), '.');
    assert_eq!(shade(1, most, i128::MAX), '.');
    assert_eq!(shade(1, most, 1), '@');
    assert_eq!(shade(1_000_000_000_000_000_000, most, most), '@');
}

#[test]
fn frame_of_cleared_buffers_is_blank() {
    let torus = Torus::from_points(vec![at(0, 0, 7 * ONE)]);
    assert_eq!(torus.show_torus_frame(1_000_000_000), blank());
    assert_eq!(torus.show_torus_frame(0), blank());
}

#[test]
fn frame_shows_each_cell_by_its_glyph() {
    let mut torus = Torus::from_points(vec![
        at(0, -ONE, 5 * ONE),
        at(ONE, 0, 5 * ONE),
        at(-ONE, ONE, 5 * ONE),
        at(-20 * ONE, -20 * ONE, 20 * ONE),
        at(19_999_999_999_999, 19_999_999_999_999, 20 * ONE),
    ]);
    let peak = torus.calculate_projection();
    assert_eq!(peak, 2_080_000_000_000_000);
    let frame = torus.show_torus_frame(peak);
    let text = rows(&frame);
    assert_eq!(text.len(), 40);
    let mut expected = vec![vec![' '; 80]; 40];
    expected[0][0] = '@';
    expected[18][40] = '.';
    expected[20][43] = '.';
    expected[21][36] = '.';
    expected[39][79] = '.';
    assert_eq!(text, expected);
    let frame = torus.show_torus_frame(120_000_000_000_000);
    let text = rows(&frame);
    expected[18][40] = '@';
    expected[20][43] = ',';
    assert_eq!(text, expected);
}

#[test]
fn frame_has_forty_lines_of_eighty_characters() {
    let mut torus = donut();
    let peak = torus.calculate_projection();
    let frame = torus.show_torus_frame(peak);
    assert_eq!(frame.chars().count(), 40 * 81);
    assert_eq!(frame.len(), 40 * 81);
    let lines: Vec<&str> = frame.lines().collect();
    assert_eq!(lines.len(), 40);
    for line in lines {
        assert_eq!(line.chars().count(), 80);
    }
    assert!(frame.ends_with('\n'));
}

#[test]
fn frame_follows_the_buffers_cell_by_cell() {
    let mut torus = donut();
    let peak = torus.calculate_projection();
    let text = rows(&torus.show_torus_frame(peak));
    for row in 0..40 {
        for col in 0..80 {
            let near = torus.projection_at(row, col).unwrap();
            let lum = torus.luminance_at(row, col).unwrap();
            assert_eq!(text[row][col], shade(near, lum, peak));
            assert_eq!(text[row][col] == ' ', near == 0);
        }
    }
}

#[test]
fn frame_without_a_positive_peak_is_blank() {
    let mut torus = Torus::from_points(vec![at(0, ONE, -5 * ONE), at(ONE, 2 * ONE, -6 * ONE)]);
    let peak = torus.calculate_projection();
    assert_eq!(peak, 0);
    assert_eq!(torus.projection_at(22, 40), Some(20_000_000_000_000_000_000_000_000));
    assert_eq!(torus.show_torus_frame(peak), blank());
    assert_eq!(torus.display(), blank());
}

#[test]
fn frame_of_a_cloud_that_cannot_be_drawn_is_blank() {
    let outer = vec![Angle::zero()];
    let inner = vec![Angle::zero()];
    let mut torus = Torus::create_torus(0, 0, &outer, &inner);
    assert_eq!(torus.point(0), Some(at(0, 0, 0)));
    assert_eq!(torus.display(), blank());
    let mut empty = Torus::from_points(Vec::new());
    assert_eq!(empty.display(), blank());
}

#[test]
fn tie_shows_the_glyph_of_the_first_point() {
    let front = at(0, 0, 7 * ONE);
    let back = at(0, 0, -7 * ONE);
    let lit = at(20 * ONE, 0, 40 * ONE);
    assert_eq!(lit.pixel(), Some((20, 66)));
    assert_eq!(lit.luminance(), 160_000_000_000_000);
    let mut torus = Torus::from_points(vec![lit, front, back]);
    let text = rows(&torus.display());
    assert_eq!(text[20][40], ',');
    assert_eq!(text[20][66], '@');
    let mut torus = Torus::from_points(vec![lit, back, front]);
    let text = rows(&torus.display());
    assert_eq!(text[20][40], '.');
    assert_eq!(text[20][66], '@');
}

#[test]
fn display_clears_draws_and_shades() {
    let mut torus = donut();
    let mut twin = donut();
    let peak = twin.calculate_projection();
    let expected = twin.show_torus_frame(peak);
    let frame = torus.display();
    assert_eq!(frame, expected);
    for row in 0..40 {
        for col in 0..80 {
            assert_eq!(torus.projection_at(row, col), twin.projection_at(row, col));
            assert_eq!(torus.luminance_at(row, col), twin.luminance_at(row, col));
        }
    }
    assert_eq!(torus.len(), twin.len());
    assert_eq!(torus.display(), expected);
    assert_eq!(torus.display(), expected);
}

#[test]
fn display_leaves_the_closeness_of_the_frame_in_the_buffer() {
    let mut torus = Torus::from_points(vec![at(0, 0, 2 * ONE)]);
    let frame = torus.display();
    for row in 0..40 {
        for col in 0..80 {
            if (row, col) == (20, 40) {
                assert_eq!(torus.projection_at(row, col), Some(50_000_000_000_000_000_000_000_000));
                assert_eq!(torus.luminance_at(row, col), Some(8_000_000_000_000));
            } else {
                assert_eq!(torus.projection_at(row, col), Some(0));
            }
        }
    }
    let text = rows(&frame);
    let mut expected = vec![vec![' '; 80]; 40];
    expected[20][40] = '@';
    assert_eq!(text, expected);
}

#[test]
fn display_does_not_draw_what_an_earlier_frame_left() {
    let quarter = Angle::new(0, torus::fixed::UNITY).unwrap();
    let mut torus = Torus::from_points(vec![at(0, 3 * ONE, 5 * ONE)]);
    torus.calculate_projection();
    assert_eq!(torus.projection_at(24, 40), Some(20_000_000_000_000_000_000_000_000));
    assert_eq!(torus.luminance_at(24, 40), Some(-280_000_000_000_000));
    torus.rotate(quarter, Angle::zero());
    assert_eq!(torus.point(0), Some(at(0, -5 * ONE, 3 * ONE)));
    let text = rows(&torus.display());
    let mut expected = vec![vec![' '; 80]; 40];
    expected[11][40] = '@';
    assert_eq!(text, expected);
    assert_eq!(torus.projection_at(24, 40), Some(0));
    assert_eq!(torus.projection_at(11, 40), Some(33_333_333_333_333_333_333_333_333));
    assert_eq!(torus.luminance_at(11, 40), Some(512_000_000_000_000));
}

#[test]
fn display_after_a_pass_shows_the_same_frame() {
    let mut torus = Torus::from_points(vec![at(0, 0, 7 * ONE), at(ONE, -ONE, 5 * ONE)]);
    let peak = torus.calculate_projection();
    let shown = torus.show_torus_frame(peak);
    assert_eq!(torus.display(), shown);
}

#[test]
fn end_to_end_frame_of_the_torus() {
    let outer = table(RING_STEP_MICRO);
    let inner = table(TUBE_STEP_MICRO);
    let mut torus = Torus::create_torus(5 * ONE, 2 * ONE, &outer, &inner);
    torus.rotate(angle(1.0), angle(0.0));
    let frame = torus.display();
    assert!(frame.chars().any(|c| c != ' ' && c != '\n'));
    let lines: Vec<&str> = frame.split('\n').collect();
    assert_eq!(lines.len(), 41);
    assert_eq!(lines[40], "");
    for line in &lines[..40] {
        assert_eq!(line.chars().count(), 80);
    }
    let glyphs = [' ', '.', ',', ':', '~', ';', '=', '!', '*', '#', '$', '@'];
    for c in frame.chars() {
        assert!(c == '\n' || glyphs.contains(&c));
    }
    assert!(frame.contains('@'));
    assert!(frame.contains('.'));
}
