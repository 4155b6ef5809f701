use keyline_design::clip::split_lines_inside_polygon;
use keyline_design::geometry::{point_in_polygon, Coords, ParallelLine, ParallelLines};

fn at(x: i32, z: i32) -> Coords {
    Coords { x: x * 100_000, z: z * 100_000 }
}

fn u_shape() -> Vec<Coords> {
    vec![at(0, 0), at(30, 0), at(30, 20), at(20, 20), at(20, 10), at(10, 10), at(10, 20), at(0, 20)]
}

fn row(z: i32, from: i32, to: i32) -> ParallelLine {
    ParallelLine { coords: (from..=to).map(|x| at(x, z)).collect() }
}

#[test]
fn straight_line_through_both_arms_gives_two_pieces() {
    let ring = u_shape();
    let lines = ParallelLines { parallel_lines: vec![row(15, -5, 35)] };
    let pieces = split_lines_inside_polygon(&lines, &ring);
    assert_eq!(pieces.len(), 2);
    assert_eq!(pieces[0].coords, row(15, 0, 9).coords);
    assert_eq!(pieces[1].coords, row(15, 20, 29).coords);
    for piece in &pieces {
        assert!(piece.coords.len() >= 2);
        for p in &piece.coords {
            assert!(point_in_polygon(p, &ring));
        }
    }
}

#[test]
fn line_below_the_notch_stays_whole() {
    let ring = u_shape();
    let lines = ParallelLines { parallel_lines: vec![row(5, 1, 29)] };
    let pieces = split_lines_inside_polygon(&lines, &ring);
    assert_eq!(pieces.len(), 1);
    assert_eq!(pieces[0].coords, row(5, 1, 29).coords);
}

#[test]
fn line_outside_gives_nothing() {
    let ring = u_shape();
    let lines = ParallelLines { parallel_lines: vec![row(25, -5, 35)] };
    assert_eq!(split_lines_inside_polygon(&lines, &ring).len(), 0);
}

#[test]
fn single_inside_points_are_dropped() {
    let ring = u_shape();
    // in, out, in, in, out, in
    let line = ParallelLine {
        coords: vec![at(5, 15), at(15, 15), at(21, 15), at(25, 15), at(40, 15), at(5, 5)],
    };
    let pieces = split_lines_inside_polygon(&ParallelLines { parallel_lines: vec![line] }, &ring);
    assert_eq!(pieces.len(), 1);
    assert_eq!(pieces[0].coords, vec![at(21, 15), at(25, 15)]);
}

#[test]
fn pieces_come_in_the_order_of_the_lines() {
    let ring = u_shape();
    let lines = ParallelLines {
        parallel_lines: vec![row(15, -5, 35), row(25, 0, 30), row(5, 3, 6), ParallelLine { coords: vec![] }],
    };
    let pieces = split_lines_inside_polygon(&lines, &ring);
    assert_eq!(pieces.len(), 3);
    assert_eq!(pieces[0].coords, row(15, 0, 9).coords);
    assert_eq!(pieces[1].coords, row(15, 20, 29).coords);
    assert_eq!(pieces[2].coords, row(5, 3, 6).coords);
}

#[test]
fn no_lines_give_no_pieces() {
    let pieces = split_lines_inside_polygon(&ParallelLines { parallel_lines: vec![] }, &u_shape());
    assert_eq!(pieces.len(), 0);
}

#[test]
fn boundary_of_two_points_keeps_nothing() {
    let ring = vec![at(0, 0), at(30, 30)];
    let lines = ParallelLines { parallel_lines: vec![row(5, 1, 29)] };
    assert_eq!(split_lines_inside_polygon(&lines, &ring).len(), 0);
}
