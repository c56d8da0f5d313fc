//! What holds of meshes that are built from ground tiles.

use crate::geometry::GridPosition;
use crate::graph::NodeKey;
use crate::nav::{exit_targets, joins_target, key, MeshModel, NavComponent};
use crate::nav_category::NavCategory;
use crate::pathfind::position_of;
use crate::route::is_consistent;
use vstd::prelude::*;

verus! {

/// True when every edge of the mesh joins two neighbouring tiles at a speed
/// of one or more.
pub open spec fn is_grid_mesh(model: MeshModel) -> bool {
    forall|e: (NodeKey, NodeKey)| #[trigger]
        model.edges.contains_key(e) ==> position_of(e.0).adjacent(position_of(e.1))
            && model.edges[e] >= 1
}

/// A mesh of neighbouring tiles stays one when a tile changes, as long as
/// the tile is crossed at a speed of one or more.
pub proof fn lemma_update_keeps_grid_mesh(
    model: MeshModel,
    category: NavCategory,
    position: GridPosition,
    vertex: NavComponent,
)
    requires
        is_grid_mesh(model),
        vertex.speed >= 1,
    ensures
        is_grid_mesh(model.updated(category, position, vertex)),
{
    let after = model.updated(category, position, vertex);
    let targets = exit_targets(position, vertex.exits);
    assert forall|e: (NodeKey, NodeKey)| #[trigger] after.edges.contains_key(e) implies position_of(
        e.0,
    ).adjacent(position_of(e.1)) && after.edges[e] >= 1 by {
        if category.within(vertex.navigability) && joins_target(
            position,
            targets,
            targets.len() as int,
            model.nodes,
            e,
        ) {
            let j = choose|j: int|
                0 <= j < targets.len() && j < targets.len() && model.nodes.contains(
                    key(#[trigger] targets[j]),
                ) && (e == (key(position), key(targets[j])) || e == (
                    key(targets[j]),
                    key(position),
                ));
            crate::nav::lemma_exit_targets_adjacent(position, vertex.exits, j);
            assert(position_of(key(position)) == position);
            assert(position_of(key(targets[j])) == targets[j]);
        } else {
            assert(model.edges.contains_key(e));
        }
    }
}

/// In a mesh of neighbouring tiles no edge shortens the distance to any
/// end by more than its speed: a search through it finds a cheapest way.
pub proof fn lemma_grid_mesh_is_consistent(model: MeshModel, end: GridPosition)
    requires
        is_grid_mesh(model),
    ensures
        is_consistent(model.edges, end),
{
    assert forall|a: GridPosition, b: GridPosition| #[trigger]
        model.edges.contains_key((key(a), key(b))) implies crate::route::ground_distance(a, end)
        <= model.edges[(key(a), key(b))] + crate::route::ground_distance(b, end) by {
        assert(position_of(key(a)) == a);
        assert(position_of(key(b)) == b);
        assert(a.adjacent(b));
    }
}

} // verus!
