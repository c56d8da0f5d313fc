use bevy::ecs::entity::Entity;
use campground::area::Area;
use campground::borders::TileBorder;
use campground::geometry::GridPosition;
use campground::grid_box::{BoundingBox, GridBox};
use campground::sides::Sides;
use campground::tile::{BorderKind, GroundChange, GroundKind, GroundMap};
use campground::unify::{update_areas, AreaChange, AreaMarker, ImmutableArea, Pool};

fn at(x: i32, y: i32) -> GridPosition {
    GridPosition::new(x, y, 0)
}

fn entity(index: u32) -> Entity {
    Entity::from_raw(index)
}

/// An area with exactly the given tiles, all within the square up to 9.
fn area_of(tiles: &[(i32, i32)]) -> Area {
    let mut area = Area::from_rect(at(0, 0), at(9, 9));
    let wanted: Vec<GridPosition> = tiles.iter().map(|t| at(t.0, t.1)).collect();
    area.retain_tiles(|tile| wanted.contains(tile));
    area
}

/// A ground map with a tile of the kind at every given cell; the entity of
/// the tile at `(x, y)` has the index `100 * x + y`.
fn ground_of(kind: GroundKind, cells: &[(i32, i32)]) -> GroundMap {
    let mut ground = GroundMap::new();
    for cell in cells {
        ground.update_with_existing_tile(entity((100 * cell.0 + cell.1) as u32), at(cell.0, cell.1), kind);
    }
    ground
}

fn sorted(mut tiles: Vec<GridPosition>) -> Vec<(i32, i32, i32)> {
    let mut keys: Vec<(i32, i32, i32)> = tiles.drain(..).map(|t| (t.x, t.y, t.z)).collect();
    keys.sort();
    keys
}

#[test]
fn rect_area_holds_every_tile_of_the_rectangle() {
    let area = Area::from_rect(GridPosition::new(3, 1, 7), GridPosition::new(1, 2, -4));
    assert_eq!(area.size(), 6);
    assert_eq!(
        sorted(area.tiles_iter()),
        vec![(1, 1, 0), (1, 2, 0), (2, 1, 0), (2, 2, 0), (3, 1, 0), (3, 2, 0)]
    );
    assert!(area.contains(&at(2, 2)));
    assert!(!area.contains(&at(0, 1)));
    assert!(!area.contains(&GridPosition::new(2, 2, 7)));
    assert!(!area.is_empty());
}

#[test]
fn bounding_box_reaches_one_past_the_largest_tile() {
    let area = Area::from_rect(at(1, 1), at(3, 2));
    let bounds = area.bounding_box();
    assert_eq!(bounds.corner, at(1, 1));
    assert_eq!(bounds.extents(), BoundingBox { x: 3, y: 2, z: 1 });
    assert_eq!(bounds, GridBox::from_corners(at(1, 1), GridPosition::new(4, 3, 1)));
}

#[test]
fn recompute_bounds_reproduces_the_stored_box() {
    let mut area = area_of(&[(2, 3), (4, 1), (4, 7)]);
    let stored = area.bounding_box();
    assert_eq!(stored, GridBox::from_corners(at(2, 1), GridPosition::new(5, 8, 1)));
    area.recompute_bounds();
    assert_eq!(area.bounding_box(), stored);
    let mut rect = Area::from_rect(at(-3, -3), at(0, 0));
    let before = rect.bounding_box();
    rect.recompute_bounds();
    assert_eq!(rect.bounding_box(), before);
}

#[test]
fn empty_area_has_the_unit_box_at_the_origin() {
    let area = Area::default();
    assert!(area.is_empty());
    assert_eq!(area.size(), 0);
    assert_eq!(area.bounding_box(), GridBox::from_corners(at(0, 0), GridPosition::new(1, 1, 1)));
    let emptied = area_of(&[]);
    assert!(emptied.is_empty());
    assert_eq!(emptied.bounding_box(), area.bounding_box());
}

#[test]
fn retain_keeps_what_the_predicate_holds_for() {
    let mut area = Area::from_rect(at(0, 0), at(3, 3));
    area.retain_tiles(|tile| tile.x == tile.y);
    assert_eq!(sorted(area.tiles_iter()), vec![(0, 0, 0), (1, 1, 0), (2, 2, 0), (3, 3, 0)]);
    assert_eq!(area.bounding_box(), GridBox::from_corners(at(0, 0), GridPosition::new(4, 4, 1)));
    area.retain_tiles(|tile| tile.x >= 2);
    assert_eq!(area.size(), 2);
    assert_eq!(area.bounding_box(), GridBox::from_corners(at(2, 2), GridPosition::new(4, 4, 1)));
}

#[test]
fn discontinuity_detection() {
    assert!(area_of(&[(0, 0), (1, 0), (5, 5)]).is_discontinuous());
    assert!(!area_of(&[(0, 0), (1, 0), (1, 1)]).is_discontinuous());
}

#[test]
fn diagonal_tiles_do_not_hang_together() {
    assert!(area_of(&[(0, 0), (1, 1)]).is_discontinuous());
    assert!(!area_of(&[(0, 0), (1, 0), (1, 1), (0, 1)]).is_discontinuous());
}

#[test]
fn single_tile_hangs_together_and_no_tile_does_not() {
    assert!(!area_of(&[(4, 4)]).is_discontinuous());
    assert!(area_of(&[]).is_discontinuous());
    assert!(Area::default().is_discontinuous());
}

#[test]
fn ring_and_snake_hang_together() {
    let ring = [(0, 0), (1, 0), (2, 0), (2, 1), (2, 2), (1, 2), (0, 2), (0, 1)];
    assert!(!area_of(&ring).is_discontinuous());
    let broken = [(0, 0), (1, 0), (2, 0), (2, 2), (1, 2), (0, 2)];
    assert!(area_of(&broken).is_discontinuous());
    assert!(!Area::from_rect(at(0, 0), at(6, 4)).is_discontinuous());
}

#[test]
fn fits_asks_for_every_floor_position() {
    let area = area_of(&[(0, 0), (1, 0), (0, 1), (1, 1), (2, 0)]);
    assert!(area.fits(&GridBox::from_corners(at(0, 0), at(1, 1))));
    assert!(area.fits(&GridBox::from_corners(at(2, 0), GridPosition::new(2, 0, 5))));
    assert!(!area.fits(&GridBox::from_corners(at(0, 0), at(2, 1))));
    assert!(!area.fits(&GridBox::from_corners(GridPosition::new(0, 0, 1), GridPosition::new(1, 1, 1))));
}

#[test]
fn fits_copes_with_boxes_at_the_rim_of_the_grid() {
    let area = area_of(&[(0, 0), (1, 0)]);
    let beyond = GridBox::from_raw(at(0, 0), BoundingBox { x: u32::MAX, y: 0, z: 0 });
    assert!(!area.fits(&beyond));
    let far = GridBox::from_raw(GridPosition::new(i32::MAX, i32::MAX, 0), BoundingBox { x: 7, y: 7, z: 7 });
    assert!(!area.fits(&far));
    assert!(area.fits(&GridBox::from_raw(at(0, 0), BoundingBox { x: 1, y: 0, z: 9 })));
}

#[test]
fn cloned_area_has_the_same_tiles_and_box() {
    let area = area_of(&[(1, 1), (1, 2)]);
    let copy = area.clone();
    assert_eq!(sorted(copy.tiles_iter()), sorted(area.tiles_iter()));
    assert_eq!(copy.bounding_box(), area.bounding_box());
    let inner = ImmutableArea(copy).into_area();
    assert_eq!(inner.size(), 2);
    let again = Area::from(ImmutableArea(inner));
    assert_eq!(again.size(), 2);
}

#[test]
fn pool_marker_allows_pool_path_only() {
    assert!(Pool.is_allowed_ground_type(GroundKind::PoolPath));
    assert!(!Pool.is_allowed_ground_type(GroundKind::Grass));
    assert!(!Pool.is_allowed_ground_type(GroundKind::Pathway));
    assert!(!Pool.is_allowed_ground_type(GroundKind::Pitch));
    assert_eq!(Pool::default(), Pool);
}

/// The tile sets of the areas that an update leaves, each sorted, in the
/// order of the sets.
fn pieces_of(changes: &[AreaChange]) -> Vec<Vec<(i32, i32, i32)>> {
    let mut pieces: Vec<Vec<(i32, i32, i32)>> = Vec::new();
    for change in changes {
        match change {
            AreaChange::Replace(_, area) | AreaChange::Create(area) => {
                pieces.push(sorted(area.tiles_iter()));
            },
            AreaChange::Remove(_) => {},
        }
    }
    pieces.sort();
    pieces
}

#[test]
fn update_splits_an_area_that_a_path_cuts() {
    let mut ground = ground_of(
        GroundKind::PoolPath,
        &[(0, 0), (1, 0), (2, 0), (3, 0), (4, 0), (0, 1), (1, 1), (2, 1), (3, 1), (4, 1)],
    );
    assert_eq!(ground.set(at(2, 0), GroundKind::Pathway), GroundChange::Update(entity(200)));
    assert_eq!(ground.set(at(2, 1), GroundKind::Pathway), GroundChange::Update(entity(201)));
    let pool = Area::from_rect(at(0, 0), at(4, 1));
    let areas = vec![(entity(1), &pool)];
    let update = update_areas(&Pool, &ground, &areas);
    assert_eq!(update.remaining, 2);
    assert_eq!(update.changes.len(), 2);
    assert!(matches!(update.changes[0], AreaChange::Replace(e, _) if e == entity(1)));
    assert!(matches!(update.changes[1], AreaChange::Create(_)));
    assert_eq!(
        pieces_of(&update.changes),
        vec![
            vec![(0, 0, 0), (0, 1, 0), (1, 0, 0), (1, 1, 0)],
            vec![(3, 0, 0), (3, 1, 0), (4, 0, 0), (4, 1, 0)],
        ]
    );
    for change in &update.changes {
        if let AreaChange::Replace(_, area) | AreaChange::Create(area) = change {
            assert!(!area.is_discontinuous());
            let mut again = area.clone();
            again.recompute_bounds();
            assert_eq!(again.bounding_box(), area.bounding_box());
        }
    }
}

#[test]
fn update_merges_areas_that_touch() {
    let ground = ground_of(GroundKind::PoolPath, &[(0, 0), (1, 0), (2, 0), (3, 0), (7, 7)]);
    let left = area_of(&[(0, 0), (1, 0)]);
    let right = area_of(&[(2, 0), (3, 0)]);
    let far = area_of(&[(7, 7)]);
    let areas = vec![(entity(1), &left), (entity(2), &right), (entity(3), &far)];
    let update = update_areas(&Pool, &ground, &areas);
    assert_eq!(update.remaining, 2);
    assert_eq!(update.changes.len(), 3);
    assert!(matches!(update.changes[0], AreaChange::Replace(e, _) if e == entity(1)));
    assert!(matches!(update.changes[1], AreaChange::Replace(e, _) if e == entity(2)));
    assert!(matches!(update.changes[2], AreaChange::Remove(e) if e == entity(3)));
    assert_eq!(
        pieces_of(&update.changes),
        vec![vec![(0, 0, 0), (1, 0, 0), (2, 0, 0), (3, 0, 0)], vec![(7, 7, 0)]]
    );
}

#[test]
fn update_drops_tiles_without_allowed_ground() {
    let mut ground = ground_of(GroundKind::PoolPath, &[(0, 0), (1, 0)]);
    ground.update_with_existing_tile(entity(9), at(2, 0), GroundKind::Grass);
    let pool = area_of(&[(0, 0), (1, 0), (2, 0), (3, 0)]);
    let areas = vec![(entity(1), &pool)];
    let update = update_areas(&Pool, &ground, &areas);
    assert_eq!(update.remaining, 1);
    assert_eq!(pieces_of(&update.changes), vec![vec![(0, 0, 0), (1, 0, 0)]]);
}

#[test]
fn update_removes_every_entity_when_no_tile_is_left() {
    let ground = ground_of(GroundKind::Grass, &[(0, 0), (1, 0)]);
    let pool = area_of(&[(0, 0), (1, 0)]);
    let areas = vec![(entity(1), &pool)];
    let update = update_areas(&Pool, &ground, &areas);
    assert_eq!(update.remaining, 0);
    assert_eq!(update.changes.len(), 1);
    assert!(matches!(update.changes[0], AreaChange::Remove(e) if e == entity(1)));
    let nothing: Vec<(Entity, &Area)> = Vec::new();
    let update = update_areas(&Pool, &GroundMap::new(), &nothing);
    assert_eq!(update.remaining, 0);
    assert!(update.changes.is_empty());
}

#[test]
fn update_counts_a_tile_that_two_areas_claim_once() {
    let ground = ground_of(GroundKind::PoolPath, &[(0, 0), (1, 0), (2, 0)]);
    let first = area_of(&[(0, 0), (1, 0)]);
    let second = area_of(&[(1, 0), (2, 0)]);
    let areas = vec![(entity(1), &first), (entity(2), &second)];
    let update = update_areas(&Pool, &ground, &areas);
    assert_eq!(update.remaining, 1);
    assert_eq!(pieces_of(&update.changes), vec![vec![(0, 0, 0), (1, 0, 0), (2, 0, 0)]]);
}

#[test]
fn updating_twice_leaves_the_same_areas() {
    let cells = [(0, 0), (1, 0), (3, 0), (4, 0), (4, 1), (8, 8)];
    let ground = ground_of(GroundKind::PoolPath, &cells);
    let claimed = area_of(&[(0, 0), (1, 0), (2, 0), (3, 0), (4, 0), (4, 1), (8, 8)]);
    let areas = vec![(entity(1), &claimed)];
    let first = update_areas(&Pool, &ground, &areas);
    assert_eq!(first.remaining, 3);
    let mut kept: Vec<Area> = Vec::new();
    for change in first.changes {
        match change {
            AreaChange::Replace(_, area) | AreaChange::Create(area) => kept.push(area),
            AreaChange::Remove(_) => {},
        }
    }
    let second_areas: Vec<(Entity, &Area)> =
        kept.iter().enumerate().map(|(i, area)| (entity(10 + i as u32), area)).collect();
    let second = update_areas(&Pool, &ground, &second_areas);
    assert_eq!(second.remaining, 3);
    assert_eq!(second.changes.len(), 3);
    let mut before: Vec<Vec<(i32, i32, i32)>> = kept.iter().map(|a| sorted(a.tiles_iter())).collect();
    before.sort();
    assert_eq!(pieces_of(&second.changes), before);
    for change in &second.changes {
        assert!(matches!(change, AreaChange::Replace(_, _)));
    }
}

#[test]
fn borders_lie_where_the_area_ends() {
    let ground = ground_of(GroundKind::Pitch, &[(0, 0), (1, 0), (0, 1), (1, 1), (2, 0)]);
    let area = area_of(&[(0, 0), (1, 0), (0, 1), (1, 1)]);
    let mut borders = area.instantiate_borders(&ground);
    borders.sort_by_key(|b| (b.position.x, b.position.y));
    assert_eq!(
        borders,
        vec![
            TileBorder { position: at(0, 0), entity: entity(0), kind: BorderKind::Pitch, sides: Sides(0b1100) },
            TileBorder { position: at(0, 1), entity: entity(1), kind: BorderKind::Pitch, sides: Sides(0b1001) },
            TileBorder { position: at(1, 0), entity: entity(100), kind: BorderKind::Pitch, sides: Sides(0b0110) },
            TileBorder { position: at(1, 1), entity: entity(101), kind: BorderKind::Pitch, sides: Sides(0b0011) },
        ]
    );
}

#[test]
fn borders_skip_ground_without_a_border_and_split_at_other_ground() {
    let mut ground = ground_of(GroundKind::Pitch, &[(0, 0), (1, 0)]);
    ground.update_with_existing_tile(entity(7), at(2, 0), GroundKind::Grass);
    let area = area_of(&[(0, 0), (1, 0), (2, 0), (3, 0)]);
    let mut borders = area.instantiate_borders(&ground);
    borders.sort_by_key(|b| (b.position.x, b.position.y));
    assert_eq!(borders.len(), 2);
    assert_eq!(borders[0].sides, Sides(0b1101));
    assert_eq!(borders[1].position, at(1, 0));
    assert_eq!(borders[1].sides, Sides(0b0111));
    let single = area_of(&[(0, 0)]);
    let alone = single.instantiate_borders(&ground);
    assert_eq!(alone.len(), 1);
    assert_eq!(alone[0].sides, Sides::all());
}
