use campground::geometry::GridPosition;
use campground::grid_box::{wrap_to_i32, BoundingBox, Extent, GridBox};
use std::cmp::Ordering;

fn at(x: i32, y: i32, z: i32) -> GridPosition {
    GridPosition::new(x, y, z)
}

#[test]
fn position_from_tuples() {
    assert_eq!(GridPosition::from((1, -2, 3)), at(1, -2, 3));
    assert_eq!(GridPosition::from((4, 5)), at(4, 5, 0));
    assert_eq!(GridPosition::default(), at(0, 0, 0));
}

#[test]
fn neighbors_are_left_right_below_above() {
    let around = at(3, 7, 2).neighbors();
    assert_eq!(around, [at(2, 7, 2), at(4, 7, 2), at(3, 6, 2), at(3, 8, 2)]);
}

#[test]
fn component_wise_extremes() {
    let a = at(1, 9, -4);
    let b = at(5, 2, -3);
    assert_eq!(a.component_wise_min(b), at(1, 2, -4));
    assert_eq!(a.component_wise_max(b), at(5, 9, -3));
}

#[test]
fn position_arithmetic() {
    assert_eq!(at(1, 2, 3) + at(10, 20, 30), at(11, 22, 33));
    assert_eq!(at(1, 2, 3) - at(10, 20, 30), at(-9, -18, -27));
    assert_eq!(at(1, 2, 3) + (1, -1), at(2, 1, 3));
    assert_eq!(at(1, 2, 3) - (1, -1), at(0, 3, 3));
    assert_eq!(at(1, 2, 3) + (1, 1, 1), at(2, 3, 4));
    assert_eq!(at(1, 2, 3) - (1, 1, 1), at(0, 1, 2));
}

#[test]
fn positions_are_ordered_by_their_coordinate_sum() {
    assert_eq!(at(1, 2, 3).partial_cmp(&at(1, 2, 3)), Some(Ordering::Equal));
    assert_eq!(at(0, 0, 0).partial_cmp(&at(1, 0, 0)), Some(Ordering::Less));
    assert_eq!(at(5, 5, 5).partial_cmp(&at(1, 0, 0)), Some(Ordering::Greater));
    assert_eq!(at(1, 0, 0).partial_cmp(&at(0, 1, 0)), None);
    assert!(at(0, 0, 0) < at(0, 0, 1));
    assert!(!(at(1, 0, 0) < at(0, 1, 0)));
    assert!(!(at(1, 0, 0) > at(0, 1, 0)));
}

#[test]
fn ordering_survives_the_edge_of_the_grid() {
    let low = at(i32::MIN, i32::MIN, i32::MIN);
    let high = at(i32::MAX, i32::MAX, i32::MAX);
    assert_eq!(low.partial_cmp(&high), Some(Ordering::Less));
    assert_eq!(low.diagonal_sum(), 3 * (i32::MIN as i64));
}

#[test]
fn bounding_box_builders() {
    let extents = BoundingBox::fixed::<2, 3, 4>();
    assert_eq!(extents, BoundingBox { x: 2, y: 3, z: 4 });
    assert_eq!(extents.height(), 4);
    assert_eq!(extents.with_height(9), BoundingBox { x: 2, y: 3, z: 9 });
    assert_eq!(extents.flat(), BoundingBox { x: 2, y: 3, z: 1 });
    assert_eq!(BoundingBox::from((5, 6)), BoundingBox { x: 5, y: 6, z: 0 });
    assert_eq!(BoundingBox::from((5, 6, 7)), BoundingBox { x: 5, y: 6, z: 7 });
    assert_eq!(BoundingBox::default(), BoundingBox { x: 0, y: 0, z: 0 });
    assert_eq!(extents / 2, (1, 1, 2));
}

#[test]
fn extents_wrap_like_casts() {
    assert_eq!(wrap_to_i32(0), 0);
    assert_eq!(wrap_to_i32(0x7fff_ffff), i32::MAX);
    assert_eq!(wrap_to_i32(0x8000_0000), i32::MIN);
    assert_eq!(wrap_to_i32(u32::MAX), -1);
    assert_eq!((1u32, 2u32, u32::MAX).as_ivec3(), (1, 2, -1));
    assert_eq!((1i32, -2i32, 3i32).as_ivec3(), (1, -2, 3));
    assert_eq!(BoundingBox { x: 1, y: 2, z: 3 }.as_ivec3(), (1, 2, 3));
}

#[test]
fn boxes_are_stored_with_their_smallest_corner() {
    let b = GridBox::from_corners(at(5, 1, 3), at(2, 4, 0));
    assert_eq!(b.corner, at(2, 1, 0));
    assert_eq!(b.extents(), BoundingBox { x: 3, y: 3, z: 3 });
    assert_eq!(b.smallest(), at(2, 1, 0));
    assert_eq!(b.largest(), at(5, 4, 3));
    assert_eq!(b, GridBox::from_corners(at(2, 4, 0), at(5, 1, 3)));
}

#[test]
fn box_from_corners_at_the_edge_of_the_grid() {
    let b = GridBox::from_corners(at(i32::MAX, 0, 0), at(i32::MIN, 0, 0));
    assert_eq!(b.corner, at(i32::MIN, 0, 0));
    assert_eq!(b.extents().x, u32::MAX);
    assert_eq!(b.largest(), at(i32::MAX, 0, 0));
}

#[test]
fn new_box_covers_the_given_cells() {
    let b = GridBox::new(at(1, 1, 1), (2, 3, 1));
    assert_eq!(b.corner, at(1, 1, 1));
    assert_eq!(b.largest(), at(2, 3, 1));
    let backwards = GridBox::new(at(1, 1, 1), (-1, 0, 1));
    assert_eq!(backwards.corner, at(-1, 0, 1));
    assert_eq!(backwards.largest(), at(1, 1, 1));
    let sized = GridBox::new(at(0, 0, 0), BoundingBox { x: 4, y: 4, z: 4 });
    assert_eq!(sized.largest(), at(3, 3, 3));
}

#[test]
fn box_around_a_center() {
    let b = GridBox::around(at(10, 10, 0), BoundingBox { x: 2, y: 3, z: 1 });
    assert_eq!(b.corner, at(9, 9, 0));
    assert_eq!(b.largest(), at(10, 11, 0));
    let single = GridBox::around(at(4, 5, 6), BoundingBox { x: 1, y: 1, z: 1 });
    assert_eq!(single.corner, at(4, 5, 6));
    assert_eq!(single.extents(), BoundingBox { x: 0, y: 0, z: 0 });
    let empty = GridBox::around(at(0, 0, 0), BoundingBox { x: 0, y: 0, z: 0 });
    assert_eq!(empty.corner, at(-1, -1, -1));
    assert_eq!(empty.largest(), at(0, 0, 0));
}

#[test]
fn box_center_and_raw() {
    let b = GridBox::from_raw(at(1, 2, 3), BoundingBox { x: 4, y: 5, z: 1 });
    assert_eq!(b.corner, at(1, 2, 3));
    assert_eq!(b.extents(), BoundingBox { x: 4, y: 5, z: 1 });
    assert_eq!(b.center(), at(3, 4, 3));
    assert_eq!(GridBox::from(at(7, 8, 9)).extents(), BoundingBox { x: 0, y: 0, z: 0 });
    assert_eq!(GridBox::from(at(7, 8, 9)).corner, at(7, 8, 9));
    assert_eq!(GridBox::default().corner, at(0, 0, 0));
}

#[test]
fn floor_positions_come_column_by_column() {
    let b = GridBox::from_corners(at(1, 1, 5), at(2, 3, 8));
    assert_eq!(
        b.floor_positions(),
        vec![at(1, 1, 5), at(1, 2, 5), at(1, 3, 5), at(2, 1, 5), at(2, 2, 5), at(2, 3, 5)]
    );
    assert_eq!(GridBox::from(at(0, 0, 0)).floor_positions(), vec![at(0, 0, 0)]);
}

#[test]
fn enlargen_grows_and_flips() {
    let mut b = GridBox::from_corners(at(0, 0, 0), at(2, 2, 2));
    b.enlargen((1, 1, 1));
    assert_eq!(b.corner, at(0, 0, 0));
    assert_eq!(b.extents(), BoundingBox { x: 3, y: 3, z: 3 });
    b.enlargen((-3, 0, 0));
    assert_eq!(b.extents(), BoundingBox { x: 0, y: 3, z: 3 });
    let mut flipped = GridBox::from_corners(at(0, 0, 0), at(1, 1, 1));
    flipped.enlargen((-3, 0, 0));
    assert_eq!(flipped.corner, at(-3, 0, 0));
    assert_eq!(flipped.largest(), at(0, 0, 0));
}

#[test]
fn boxes_intersect_when_they_overlap_on_every_axis() {
    let a = GridBox::from_corners(at(0, 0, 0), at(4, 4, 4));
    let touching = GridBox::from_corners(at(4, 4, 4), at(6, 6, 6));
    let apart = GridBox::from_corners(at(5, 0, 0), at(6, 4, 4));
    let inside = GridBox::from_corners(at(1, 1, 1), at(2, 2, 2));
    let above = GridBox::from_corners(at(1, 1, 7), at(2, 2, 9));
    assert!(a.intersects(touching));
    assert!(touching.intersects(a));
    assert!(!a.intersects(apart));
    assert!(a.intersects(inside));
    assert!(inside.intersects(a));
    assert!(!a.intersects(above));
    assert!(a.intersects_2d(above));
    assert!(above.intersects_2d(a));
    assert!(!a.intersects_2d(apart));
}

#[test]
fn boxes_are_ordered_by_corner_then_size() {
    let small = GridBox::from_corners(at(0, 0, 0), at(1, 1, 1));
    let large = GridBox::from_corners(at(0, 0, 0), at(2, 2, 2));
    let skewed = GridBox::from_raw(at(0, 0, 0), BoundingBox { x: 3, y: 0, z: 0 });
    let moved = GridBox::from_corners(at(1, 0, 0), at(1, 0, 0));
    let sideways = GridBox::from_corners(at(0, 1, 0), at(0, 1, 0));
    assert_eq!(small.partial_cmp(&small), Some(Ordering::Equal));
    assert_eq!(small.partial_cmp(&large), Some(Ordering::Less));
    assert_eq!(large.partial_cmp(&small), Some(Ordering::Greater));
    assert_eq!(small.partial_cmp(&skewed), None);
    assert_eq!(large.partial_cmp(&moved), Some(Ordering::Less));
    assert_eq!(moved.partial_cmp(&sideways), None);
}
