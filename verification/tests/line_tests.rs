use campground::geometry::GridPosition;

fn at(x: i32, y: i32, z: i32) -> GridPosition {
    GridPosition::new(x, y, z)
}

#[test]
fn line_along_x_has_every_position() {
    let line = at(0, 0, 0).line_to_2d(at(5, 0, 0));
    assert_eq!(
        line,
        vec![at(0, 0, 0), at(1, 0, 0), at(2, 0, 0), at(3, 0, 0), at(4, 0, 0), at(5, 0, 0)]
    );
}

#[test]
fn line_to_itself_is_one_position() {
    let p = at(3, -4, 7);
    assert_eq!(p.line_to_2d(p), vec![p]);
}

#[test]
fn line_runs_from_the_smaller_end() {
    let line = at(5, 0, 2).line_to_2d(at(0, 0, 9));
    assert_eq!(
        line,
        vec![at(0, 0, 2), at(1, 0, 2), at(2, 0, 2), at(3, 0, 2), at(4, 0, 2), at(5, 0, 2)]
    );
}

#[test]
fn diagonal_line_steps_on_both_axes() {
    assert_eq!(
        at(0, 0, 0).line_to_2d(at(3, 3, 0)),
        vec![at(0, 0, 0), at(1, 1, 0), at(2, 2, 0), at(3, 3, 0)]
    );
    assert_eq!(
        at(0, 3, 0).line_to_2d(at(3, 0, 0)),
        vec![at(3, 0, 0), at(2, 1, 0), at(1, 2, 0), at(0, 3, 0)]
    );
}

#[test]
fn gentle_line_rounds_to_the_nearest_row() {
    assert_eq!(
        at(0, 0, 0).line_to_2d(at(5, 2, 0)),
        vec![at(0, 0, 0), at(1, 0, 0), at(2, 1, 0), at(3, 1, 0), at(4, 2, 0), at(5, 2, 0)]
    );
    assert_eq!(
        at(0, 0, 0).line_to_2d(at(4, -2, 0)),
        vec![at(0, 0, 0), at(1, 0, 0), at(2, -1, 0), at(3, -1, 0), at(4, -2, 0)]
    );
}

#[test]
fn steep_line_walks_along_y() {
    assert_eq!(
        at(0, 0, 1).line_to_2d(at(1, 4, 1)),
        vec![at(0, 0, 1), at(0, 1, 1), at(0, 2, 1), at(1, 3, 1), at(1, 4, 1)]
    );
    assert_eq!(
        at(2, 3, 0).line_to_2d(at(2, 0, 0)),
        vec![at(2, 0, 0), at(2, 1, 0), at(2, 2, 0), at(2, 3, 0)]
    );
}

#[test]
fn line_length_is_the_longer_span_plus_one() {
    let line = at(-10, 4, 0).line_to_2d(at(20, -3, 0));
    assert_eq!(line.len(), 31);
    assert_eq!(line[0], at(-10, 4, 0));
    assert_eq!(line[30], at(20, -3, 0));
    for (k, p) in line.iter().enumerate() {
        assert_eq!(p.x, -10 + k as i32);
        assert_eq!(p.z, 0);
    }
}
