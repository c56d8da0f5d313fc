use campground::geometry::GridPosition;
use campground::nav::{NavComponent, NavMesh, NavVertex};
use campground::nav_category::{belongs_in_mesh, NavCategory};
use campground::pathfind::{heuristic, Path};
use campground::sides::Sides;
use std::cmp::Ordering;

fn at(x: i32, y: i32) -> GridPosition {
    GridPosition::new(x, y, 0)
}

fn tile(speed: u32, navigability: NavCategory) -> NavComponent {
    NavComponent { exits: Sides::all(), speed, navigability }
}

/// A mesh for people over the square from the origin to `(size - 1, size - 1)`.
fn grid(size: i32, speed: u32) -> NavMesh {
    let mut changes: Vec<(GridPosition, NavComponent)> = Vec::new();
    for x in 0..size {
        for y in 0..size {
            changes.push((at(x, y), tile(speed, NavCategory::People)));
        }
    }
    let mut mesh = NavMesh::new(NavCategory::People);
    mesh.update_vertices(&changes);
    mesh
}

fn assert_route(mesh: &NavMesh, path: &Path, start: GridPosition, end: GridPosition) {
    let positions = path.positions();
    assert_eq!(positions.first(), Some(&start));
    assert_eq!(positions.last(), Some(&end));
    assert_eq!(path.start(), Some(&start));
    assert_eq!(path.end(), Some(&end));
    for pair in positions.windows(2) {
        assert!(mesh.edge_speed(&pair[0], &pair[1]).is_some());
    }
}

#[test]
fn categories_form_a_chain() {
    assert_eq!(NavCategory::default(), NavCategory::People);
    assert_eq!(NavCategory::People.partial_cmp(&NavCategory::People), Some(Ordering::Equal));
    assert_eq!(NavCategory::Nobody.partial_cmp(&NavCategory::People), Some(Ordering::Less));
    assert_eq!(NavCategory::Nobody.partial_cmp(&NavCategory::Vehicles), Some(Ordering::Less));
    assert_eq!(NavCategory::People.partial_cmp(&NavCategory::Vehicles), Some(Ordering::Less));
    assert_eq!(NavCategory::Vehicles.partial_cmp(&NavCategory::People), Some(Ordering::Greater));
    assert_eq!(NavCategory::People.partial_cmp(&NavCategory::Nobody), Some(Ordering::Greater));
    assert!(NavCategory::People <= NavCategory::Vehicles);
    assert!(!(NavCategory::Vehicles <= NavCategory::People));
    assert!(belongs_in_mesh(NavCategory::People, NavCategory::Vehicles));
    assert!(belongs_in_mesh(NavCategory::Vehicles, NavCategory::Vehicles));
    assert!(!belongs_in_mesh(NavCategory::Vehicles, NavCategory::People));
    assert!(!belongs_in_mesh(NavCategory::People, NavCategory::Nobody));
}

#[test]
fn vertices_are_told_apart_by_position() {
    let slow = NavVertex::from((at(1, 1), 1));
    let fast = NavVertex { position: at(1, 1), speed: 9 };
    let other = NavVertex { position: at(1, 2), speed: 1 };
    assert_eq!(slow.speed, 1);
    assert!(slow == fast);
    assert!(slow != other);
}

#[test]
fn vehicle_tile_is_in_both_meshes_and_people_tile_in_one() {
    let mut people = NavMesh::new(NavCategory::People);
    let mut vehicles = NavMesh::new(NavCategory::Vehicles);
    assert_eq!(people.category(), NavCategory::People);
    assert_eq!(vehicles.category(), NavCategory::Vehicles);
    let changes = vec![
        (at(0, 0), tile(2, NavCategory::Vehicles)),
        (at(1, 0), tile(1, NavCategory::People)),
        (at(2, 0), tile(1, NavCategory::Nobody)),
    ];
    people.update_vertices(&changes);
    vehicles.update_vertices(&changes);
    assert!(people.contains(&at(0, 0)));
    assert!(vehicles.contains(&at(0, 0)));
    assert!(people.contains(&at(1, 0)));
    assert!(!vehicles.contains(&at(1, 0)));
    assert!(!people.contains(&at(2, 0)));
    assert!(!vehicles.contains(&at(2, 0)));
}

#[test]
fn update_joins_a_tile_with_the_nodes_across_its_exits() {
    let mut mesh = NavMesh::new(NavCategory::People);
    mesh.update_vertex(&at(0, 0), tile(1, NavCategory::People));
    assert!(mesh.neighbors(&at(0, 0)).is_empty());
    mesh.update_vertex(&at(1, 0), tile(3, NavCategory::People));
    assert_eq!(mesh.edge_speed(&at(1, 0), &at(0, 0)), Some(3));
    assert_eq!(mesh.edge_speed(&at(0, 0), &at(1, 0)), Some(3));
    assert_eq!(mesh.edge_speed(&at(0, 0), &at(0, 1)), None);
    assert_eq!(mesh.neighbors(&at(0, 0)), vec![(at(1, 0), 3)]);
    mesh.update_vertex(&at(0, 0), tile(7, NavCategory::People));
    assert_eq!(mesh.edge_speed(&at(1, 0), &at(0, 0)), Some(7));
    assert_eq!(mesh.edge_speed(&at(0, 0), &at(1, 0)), Some(7));
}

#[test]
fn update_follows_the_exits_only() {
    let mut mesh = NavMesh::new(NavCategory::People);
    mesh.update_vertex(&at(1, 0), tile(1, NavCategory::People));
    mesh.update_vertex(&at(0, 1), tile(1, NavCategory::People));
    mesh.update_vertex(
        &at(0, 0),
        NavComponent { exits: Sides::top(), speed: 4, navigability: NavCategory::People },
    );
    assert_eq!(mesh.edge_speed(&at(0, 0), &at(0, 1)), Some(4));
    assert_eq!(mesh.edge_speed(&at(0, 1), &at(0, 0)), Some(4));
    assert_eq!(mesh.edge_speed(&at(0, 0), &at(1, 0)), None);
    assert_eq!(mesh.edge_speed(&at(1, 0), &at(0, 0)), None);
    assert_eq!(
        at(5, 5).neighbors_for(Sides::all()),
        vec![at(5, 4), at(4, 5), at(5, 6), at(6, 5)]
    );
    assert_eq!(at(5, 5).neighbors_for(Sides::right() ^ Sides::left()), vec![at(4, 5), at(6, 5)]);
}

#[test]
fn tile_that_closes_leaves_the_mesh_with_its_edges() {
    let mut mesh = grid(2, 1);
    assert!(mesh.contains(&at(1, 1)));
    assert_eq!(mesh.edge_speed(&at(1, 0), &at(1, 1)), Some(1));
    mesh.update_vertex(&at(1, 1), tile(1, NavCategory::Nobody));
    assert!(!mesh.contains(&at(1, 1)));
    assert_eq!(mesh.edge_speed(&at(1, 0), &at(1, 1)), None);
    assert_eq!(mesh.edge_speed(&at(1, 1), &at(0, 1)), None);
    assert_eq!(mesh.edge_speed(&at(0, 0), &at(1, 0)), Some(1));
    assert!(mesh.contains(&at(0, 1)));
}

#[test]
fn levels_are_not_joined() {
    let mut mesh = NavMesh::new(NavCategory::People);
    mesh.update_vertex(&GridPosition::new(0, 0, 0), tile(1, NavCategory::People));
    mesh.update_vertex(&GridPosition::new(1, 0, 1), tile(1, NavCategory::People));
    assert_eq!(mesh.edge_speed(&GridPosition::new(0, 0, 0), &GridPosition::new(1, 0, 1)), None);
    assert!(mesh.pathfind(GridPosition::new(0, 0, 0), GridPosition::new(1, 0, 1)).is_none());
}

#[test]
fn path_across_a_three_by_three_grid_has_five_positions() {
    let mesh = grid(3, 1);
    let path = mesh.pathfind(at(0, 0), at(2, 2)).unwrap();
    assert_eq!(path.len(), 5);
    assert_route(&mesh, &path, at(0, 0), at(2, 2));
}

#[test]
fn no_path_to_a_tile_far_from_the_mesh() {
    let mesh = grid(3, 1);
    assert!(mesh.pathfind(at(0, 0), at(10, 10)).is_none());
    assert!(mesh.pathfind(at(10, 10), at(0, 0)).is_none());
}

#[test]
fn path_to_the_start_is_the_start() {
    let mesh = grid(3, 1);
    let path = mesh.pathfind(at(1, 1), at(1, 1)).unwrap();
    assert_eq!(path.positions(), vec![at(1, 1)]);
    let nowhere = NavMesh::new(NavCategory::People).pathfind(at(7, 7), at(7, 7)).unwrap();
    assert_eq!(nowhere.positions(), vec![at(7, 7)]);
}

#[test]
fn path_goes_around_a_wall() {
    let mut mesh = grid(5, 1);
    for y in 0..4 {
        mesh.update_vertex(&at(2, y), tile(1, NavCategory::Nobody));
    }
    let path = mesh.pathfind(at(0, 0), at(4, 0)).unwrap();
    assert_eq!(path.len(), 13);
    assert_route(&mesh, &path, at(0, 0), at(4, 0));
    assert!(path.positions().contains(&at(2, 4)));
    mesh.update_vertex(&at(2, 4), tile(1, NavCategory::Nobody));
    assert!(mesh.pathfind(at(0, 0), at(4, 0)).is_none());
    assert!(mesh.pathfind(at(0, 0), at(1, 4)).is_some());
}

#[test]
fn path_along_a_line_is_the_line() {
    let mut mesh = NavMesh::new(NavCategory::Vehicles);
    let changes: Vec<(GridPosition, NavComponent)> =
        (0..6).map(|x| (at(x, 0), tile(2, NavCategory::Vehicles))).collect();
    mesh.update_vertices(&changes);
    let path = mesh.pathfind(at(5, 0), at(0, 0)).unwrap();
    assert_eq!(path.positions(), vec![at(5, 0), at(4, 0), at(3, 0), at(2, 0), at(1, 0), at(0, 0)]);
}

#[test]
fn heuristic_counts_steps_on_the_ground() {
    assert_eq!(heuristic(at(0, 0), at(2, 2)), 4);
    assert_eq!(heuristic(GridPosition::new(3, -1, 9), GridPosition::new(-2, 4, 0)), 10);
    assert_eq!(
        heuristic(GridPosition::new(i32::MIN, i32::MIN, 0), GridPosition::new(i32::MAX, i32::MAX, 0)),
        2 * (u32::MAX as u64)
    );
}

#[test]
fn path_helpers() {
    let empty = Path::default();
    assert_eq!(empty.len(), 0);
    assert_eq!(empty.start(), None);
    assert_eq!(empty.end(), None);
    let single = Path::single(at(3, 4));
    assert_eq!(single.len(), 1);
    assert_eq!(single.start(), Some(&at(3, 4)));
    assert_eq!(single.end(), Some(&at(3, 4)));
}

#[test]
fn exits_over_the_rim_lead_nowhere() {
    let corner = GridPosition::new(i32::MAX, i32::MIN, 0);
    assert_eq!(
        corner.neighbors_for(Sides::all()),
        vec![GridPosition::new(i32::MAX - 1, i32::MIN, 0), GridPosition::new(i32::MAX, i32::MIN + 1, 0)]
    );
    let mut mesh = NavMesh::new(NavCategory::People);
    mesh.update_vertex(&corner, tile(1, NavCategory::People));
    mesh.update_vertex(&GridPosition::new(i32::MAX - 1, i32::MIN, 0), tile(2, NavCategory::People));
    assert!(mesh.contains(&corner));
    assert_eq!(mesh.edge_speed(&corner, &GridPosition::new(i32::MAX - 1, i32::MIN, 0)), Some(2));
    let path = mesh.pathfind(GridPosition::new(i32::MAX - 1, i32::MIN, 0), corner).unwrap();
    assert_eq!(path.len(), 2);
}
