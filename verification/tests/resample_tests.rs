use keyline_design::geometry::Coords;
use keyline_design::resample::{integer_sqrt, resample_line_to_equal_spacing, segment_length};

const UNIT: u32 = 100_000;

fn g(x: i32, z: i32) -> Coords {
    Coords { x, z }
}

#[test]
fn segment_of_five_units_gives_six_points() {
    let path = vec![g(0, 0), g(500_000, 0)];
    let out = resample_line_to_equal_spacing(&path, UNIT);
    assert_eq!(
        out,
        vec![g(0, 0), g(100_000, 0), g(200_000, 0), g(300_000, 0), g(400_000, 0), g(500_000, 0)]
    );
}

#[test]
fn resampling_a_resampled_segment_changes_nothing() {
    let path = vec![g(0, 0), g(500_000, 0)];
    let once = resample_line_to_equal_spacing(&path, UNIT);
    let twice = resample_line_to_equal_spacing(&once, UNIT);
    assert_eq!(twice.len(), once.len());
    assert_eq!(twice.first(), once.first());
    assert_eq!(twice.last(), once.last());
    assert_eq!(twice, once);
}

#[test]
fn evenly_spaced_path_with_a_bend_is_kept() {
    let path = vec![g(0, 0), g(100_000, 0), g(200_000, 0), g(200_000, 100_000), g(200_000, 200_000)];
    assert_eq!(resample_line_to_equal_spacing(&path, UNIT), path);
}

#[test]
fn last_point_is_kept_off_the_grid() {
    let path = vec![g(0, 0), g(250_000, 0)];
    let out = resample_line_to_equal_spacing(&path, UNIT);
    assert_eq!(out, vec![g(0, 0), g(100_000, 0), g(200_000, 0), g(250_000, 0)]);
}

#[test]
fn remainder_is_carried_round_a_corner() {
    let path = vec![g(0, 0), g(250_000, 0), g(250_000, 250_000)];
    let out = resample_line_to_equal_spacing(&path, UNIT);
    assert_eq!(
        out,
        vec![
            g(0, 0),
            g(100_000, 0),
            g(200_000, 0),
            g(250_000, 50_000),
            g(250_000, 150_000),
            g(250_000, 250_000),
        ]
    );
}

#[test]
fn remainder_is_carried_over_short_segments() {
    // Three segments of 0.4 units: one point at 1.0, inside the third segment.
    let path = vec![g(0, 0), g(40_000, 0), g(80_000, 0), g(120_000, 0)];
    let out = resample_line_to_equal_spacing(&path, UNIT);
    assert_eq!(out, vec![g(0, 0), g(100_000, 0), g(120_000, 0)]);
}

#[test]
fn repeated_point_is_skipped() {
    let path = vec![g(0, 0), g(150_000, 0), g(150_000, 0), g(300_000, 0)];
    let out = resample_line_to_equal_spacing(&path, UNIT);
    assert_eq!(out, vec![g(0, 0), g(100_000, 0), g(200_000, 0), g(300_000, 0)]);
}

#[test]
fn path_of_one_repeated_point_keeps_its_ends() {
    let path = vec![g(7, 9), g(7, 9)];
    assert_eq!(resample_line_to_equal_spacing(&path, UNIT), vec![g(7, 9), g(7, 9)]);
}

#[test]
fn short_paths_give_nothing() {
    assert_eq!(resample_line_to_equal_spacing(&vec![], UNIT), vec![]);
    assert_eq!(resample_line_to_equal_spacing(&vec![g(1, 1)], UNIT), vec![]);
}

#[test]
fn segment_shorter_than_spacing_keeps_its_ends() {
    let path = vec![g(0, 0), g(30_000, 40_000)];
    assert_eq!(resample_line_to_equal_spacing(&path, UNIT), path);
}

#[test]
fn slanted_segment_is_divided_along_its_length() {
    let path = vec![g(0, 0), g(300_000, 400_000)];
    let out = resample_line_to_equal_spacing(&path, UNIT);
    assert_eq!(
        out,
        vec![
            g(0, 0),
            g(60_000, 80_000),
            g(120_000, 160_000),
            g(180_000, 240_000),
            g(240_000, 320_000),
            g(300_000, 400_000),
        ]
    );
}

#[test]
fn segment_towards_smaller_coordinates() {
    let path = vec![g(300_000, 400_000), g(0, 0)];
    let out = resample_line_to_equal_spacing(&path, UNIT);
    assert_eq!(
        out,
        vec![
            g(300_000, 400_000),
            g(240_000, 320_000),
            g(180_000, 240_000),
            g(120_000, 160_000),
            g(60_000, 80_000),
            g(0, 0),
        ]
    );
}

#[test]
fn points_are_rounded_towards_the_segment_start() {
    // Length 10 grid steps, spacing 3: points at 3, 6 and 9 of 10 along (7, 7).
    let path = vec![g(0, 0), g(7, 7)];
    assert_eq!(segment_length(path[0], path[1]), 9);
    let out = resample_line_to_equal_spacing(&path, 3);
    assert_eq!(out, vec![g(0, 0), g(2, 2), g(4, 4), g(7, 7)]);
    let back = resample_line_to_equal_spacing(&vec![g(7, 7), g(0, 0)], 3);
    assert_eq!(back, vec![g(7, 7), g(5, 5), g(3, 3), g(0, 0)]);
}

#[test]
fn other_spacing() {
    let path = vec![g(0, 0), g(0, 500_000)];
    let out = resample_line_to_equal_spacing(&path, 2 * UNIT);
    assert_eq!(out, vec![g(0, 0), g(0, 200_000), g(0, 400_000), g(0, 500_000)]);
}

#[test]
fn extreme_segment_is_resampled() {
    let path = vec![g(i32::MIN, i32::MIN), g(i32::MAX, i32::MAX)];
    let out = resample_line_to_equal_spacing(&path, u32::MAX);
    assert_eq!(out.len(), 3);
    assert_eq!(out[0], path[0]);
    assert_eq!(out[2], path[1]);
    assert!(out[1].x > 0 && out[1].x == out[1].z);
}

#[test]
fn integer_sqrt_is_the_floor() {
    assert_eq!(integer_sqrt(0), 0);
    assert_eq!(integer_sqrt(1), 1);
    assert_eq!(integer_sqrt(2), 1);
    assert_eq!(integer_sqrt(3), 1);
    assert_eq!(integer_sqrt(4), 2);
    assert_eq!(integer_sqrt(15), 3);
    assert_eq!(integer_sqrt(16), 4);
    assert_eq!(integer_sqrt(17), 4);
    assert_eq!(integer_sqrt(250_000_000_000), 500_000);
    assert_eq!(integer_sqrt(249_999_999_999), 499_999);
    assert_eq!(integer_sqrt(u128::MAX), u64::MAX);
}

#[test]
fn segment_length_is_in_grid_steps() {
    assert_eq!(segment_length(g(0, 0), g(300_000, 400_000)), 500_000);
    assert_eq!(segment_length(g(300_000, 400_000), g(0, 0)), 500_000);
    assert_eq!(segment_length(g(5, 5), g(5, 5)), 0);
    assert_eq!(segment_length(g(0, 0), g(1, 1)), 1);
    assert_eq!(segment_length(g(i32::MIN, 0), g(i32::MAX, 0)), 4_294_967_295);
}

#[test]
fn point_count_follows_from_the_length() {
    // Lengths 3.5 + 3.5 = 7 units: the ends and the multiples 1 to 6.
    let path = vec![g(0, 0), g(350_000, 0), g(350_000, 350_000)];
    assert_eq!(resample_line_to_equal_spacing(&path, UNIT).len(), 2 + 6);
    // Length 7.2 units: the ends and the multiples 1 to 7.
    let path = vec![g(0, 0), g(350_000, 0), g(350_000, 370_000)];
    assert_eq!(resample_line_to_equal_spacing(&path, UNIT).len(), 2 + 7);
    // Length 0.9 units: the ends alone.
    let path = vec![g(0, 0), g(45_000, 0), g(90_000, 0)];
    assert_eq!(resample_line_to_equal_spacing(&path, UNIT).len(), 2);
}
