//! Navigation meshes: which tiles can be crossed, and at what speed.

use crate::geometry::GridPosition;
use crate::graph::{
    edges_without, graph_add_edge, graph_add_node, graph_contains_node, graph_edges_from,
    graph_new, graph_remove_node, lists_edges_from, mesh_edges, mesh_nodes, NodeKey,
};
use crate::nav_category::{belongs_in_mesh, NavCategory};
use crate::sides::{Sides, BOTTOM_BIT, LEFT_BIT, RIGHT_BIT, TOP_BIT};
use petgraph::graphmap::DiGraphMap;
use vstd::prelude::*;
use vstd::std_specs::cmp::PartialEqSpecImpl;
use vstd::std_specs::convert::FromSpecImpl;

verus! {

/// What a ground tile offers to those who cross it.
#[derive(Clone, Copy, Debug)]
pub struct NavComponent {
    /// The sides on which the tile can be left.
    pub exits: Sides,
    /// The speed at which the tile is crossed.
    pub speed: u32,
    /// To whom the tile is open. What is open to vehicles is open to
    /// people too.
    pub navigability: NavCategory,
}

/// A tile as a point of a mesh: a position, and the speed that goes with
/// it. Two vertices are the same when their positions are.
#[derive(Clone, Copy, Debug)]
pub struct NavVertex {
    pub position: GridPosition,
    pub speed: u32,
}

impl PartialEq for NavVertex {
    fn eq(&self, other: &NavVertex) -> (same: bool) {
        self.position.x == other.position.x && self.position.y == other.position.y
            && self.position.z == other.position.z
    }
}

impl PartialEqSpecImpl for NavVertex {
    open spec fn obeys_eq_spec() -> bool {
        true
    }

    open spec fn eq_spec(&self, other: &NavVertex) -> bool {
        self.position == other.position
    }
}

impl Eq for NavVertex {

}

impl From<(GridPosition, u32)> for NavVertex {
    fn from(value: (GridPosition, u32)) -> (vertex: NavVertex) {
        NavVertex { position: value.0, speed: value.1 }
    }
}

impl FromSpecImpl<(GridPosition, u32)> for NavVertex {
    open spec fn obeys_from_spec() -> bool {
        true
    }

    open spec fn from_spec(value: (GridPosition, u32)) -> NavVertex {
        NavVertex { position: value.0, speed: value.1 }
    }
}

/// The node that stands for a position.
pub open spec fn key(position: GridPosition) -> NodeKey {
    (position.x, position.y, position.z)
}

/// What a mesh holds: its nodes, and its edges with their speeds.
pub ghost struct MeshModel {
    pub nodes: Set<NodeKey>,
    pub edges: Map<(NodeKey, NodeKey), u32>,
}

/// True when the list names the edges that leave `from`, each once, with
/// the tile that it leads to and its speed.
pub open spec fn lists_neighbors(
    edges: Map<(NodeKey, NodeKey), u32>,
    from: GridPosition,
    list: Seq<(GridPosition, u32)>,
) -> bool {
    &&& forall|i: int|
        0 <= i < list.len() ==> edges.contains_key((key(from), key((#[trigger] list[i]).0)))
            && edges[(key(from), key(list[i].0))] == list[i].1
    &&& forall|i: int, j: int|
        0 <= i < j < list.len() ==> (#[trigger] list[i]).0 != (#[trigger] list[j]).0
    &&& forall|to: GridPosition| #[trigger]
        edges.contains_key((key(from), key(to))) ==> exists|i: int|
            0 <= i < list.len() && (#[trigger] list[i]).0 == to
}

/// The position across one side of a tile, where the grid goes on there:
/// right and left along x, top and bottom along y.
pub open spec fn across(position: GridPosition, exits: Sides, side: u8) -> Seq<GridPosition> {
    if !exits.shares(Sides(side)) {
        Seq::empty()
    } else if side == BOTTOM_BIT && position.y > i32::MIN {
        seq![position.shifted(0, -1, 0)]
    } else if side == LEFT_BIT && position.x > i32::MIN {
        seq![position.shifted(-1, 0, 0)]
    } else if side == TOP_BIT && position.y < i32::MAX {
        seq![position.shifted(0, 1, 0)]
    } else if side == RIGHT_BIT && position.x < i32::MAX {
        seq![position.shifted(1, 0, 0)]
    } else {
        Seq::empty()
    }
}

/// The positions that lie across the exits of a tile, in the order bottom,
/// left, top, right. An exit over the rim of the grid leads nowhere.
pub open spec fn exit_targets(position: GridPosition, exits: Sides) -> Seq<GridPosition> {
    across(position, exits, BOTTOM_BIT) + across(position, exits, LEFT_BIT) + across(
        position,
        exits,
        TOP_BIT,
    ) + across(position, exits, RIGHT_BIT)
}

/// True when `edge` joins `position` and one of the first `upto` targets
/// that are nodes, in either direction.
pub open spec fn joins_target(
    position: GridPosition,
    targets: Seq<GridPosition>,
    upto: int,
    nodes: Set<NodeKey>,
    edge: (NodeKey, NodeKey),
) -> bool {
    exists|j: int|
        0 <= j < upto && j < targets.len() && nodes.contains(key(#[trigger] targets[j])) && (edge
            == (key(position), key(targets[j])) || edge == (key(targets[j]), key(position)))
}

/// The edges of a mesh after a tile was entered anew: what touched the tile
/// is gone, and the tile is joined, in both directions and at the given
/// speed, with the first `upto` targets that are nodes.
pub open spec fn rejoined_edges(
    edges: Map<(NodeKey, NodeKey), u32>,
    position: GridPosition,
    targets: Seq<GridPosition>,
    upto: int,
    nodes: Set<NodeKey>,
    speed: u32,
) -> Map<(NodeKey, NodeKey), u32> {
    Map::new(
        |e: (NodeKey, NodeKey)|
            joins_target(position, targets, upto, nodes, e) || edges_without(
                edges,
                key(position),
            ).contains_key(e),
        |e: (NodeKey, NodeKey)|
            if joins_target(position, targets, upto, nodes, e) {
                speed
            } else {
                edges[e]
            },
    )
}

impl MeshModel {
    /// True when the nodes are finitely many and every edge joins two of
    /// them.
    pub open spec fn wf(self) -> bool {
        &&& self.nodes.finite()
        &&& forall|e: (NodeKey, NodeKey)| #[trigger]
            self.edges.contains_key(e) ==> self.nodes.contains(e.0) && self.nodes.contains(e.1)
    }

    /// The mesh of a category after the tile at `position` changed to
    /// `vertex`. A tile that is open to the category is a node afterwards,
    /// joined anew with the nodes across its exits; any other tile is no
    /// node. Either way the edges that touched the tile before are gone.
    pub open spec fn updated(
        self,
        category: NavCategory,
        position: GridPosition,
        vertex: NavComponent,
    ) -> MeshModel {
        if category.within(vertex.navigability) {
            MeshModel {
                nodes: self.nodes.insert(key(position)),
                edges: rejoined_edges(
                    self.edges,
                    position,
                    exit_targets(position, vertex.exits),
                    exit_targets(position, vertex.exits).len() as int,
                    self.nodes,
                    vertex.speed,
                ),
            }
        } else {
            MeshModel {
                nodes: self.nodes.remove(key(position)),
                edges: edges_without(self.edges, key(position)),
            }
        }
    }

    /// The mesh after the first `n` of the given changes, one after the
    /// other.
    pub open spec fn updated_all(
        self,
        category: NavCategory,
        changes: Seq<(GridPosition, NavComponent)>,
        n: int,
    ) -> MeshModel
        decreases n,
    {
        if n <= 0 {
            self
        } else {
            self.updated_all(category, changes, n - 1).updated(
                category,
                changes[n - 1].0,
                changes[n - 1].1,
            )
        }
    }
}

impl GridPosition {
    /// The neighbours that lie across the given exits, in the order bottom,
    /// left, top, right. An exit over the rim of the grid has no neighbour.
    pub fn neighbors_for(&self, exits: Sides) -> (targets: Vec<GridPosition>)
        ensures
            targets@ == exit_targets(*self, exits),
    {
        let mut targets: Vec<GridPosition> = Vec::new();
        if exits.has_side(Sides(BOTTOM_BIT)) && self.y > i32::MIN {
            targets.push(GridPosition { x: self.x, y: self.y - 1, z: self.z });
        }
        if exits.has_side(Sides(LEFT_BIT)) && self.x > i32::MIN {
            targets.push(GridPosition { x: self.x - 1, y: self.y, z: self.z });
        }
        if exits.has_side(Sides(TOP_BIT)) && self.y < i32::MAX {
            targets.push(GridPosition { x: self.x, y: self.y + 1, z: self.z });
        }
        if exits.has_side(Sides(RIGHT_BIT)) && self.x < i32::MAX {
            targets.push(GridPosition { x: self.x + 1, y: self.y, z: self.z });
        }
        assert(targets@ =~= exit_targets(*self, exits));
        targets
    }
}

/// Every position across an exit is a neighbour of the tile.
pub proof fn lemma_exit_targets_adjacent(position: GridPosition, exits: Sides, i: int)
    requires
        0 <= i < exit_targets(position, exits).len(),
    ensures
        position.adjacent(exit_targets(position, exits)[i]),
        exit_targets(position, exits)[i].adjacent(position),
{
    let bottom = across(position, exits, BOTTOM_BIT);
    let left = across(position, exits, LEFT_BIT);
    let top = across(position, exits, TOP_BIT);
    let right = across(position, exits, RIGHT_BIT);
    let all = exit_targets(position, exits);
    if i < bottom.len() {
        assert(all[i] == bottom[i]);
    } else if i < bottom.len() + left.len() {
        assert(all[i] == left[i - bottom.len()]);
    } else if i < bottom.len() + left.len() + top.len() {
        assert(all[i] == top[i - bottom.len() - left.len()]);
    } else {
        assert(all[i] == right[i - bottom.len() - left.len() - top.len()]);
    }
}

/// A navigation mesh for one category of actors: a directed graph over the
/// tiles that are open to the category.
pub struct NavMesh {
    category: NavCategory,
    graph: DiGraphMap<NodeKey, u32>,
}

impl View for NavMesh {
    type V = MeshModel;

    closed spec fn view(&self) -> MeshModel {
        MeshModel { nodes: mesh_nodes(self.graph), edges: mesh_edges(self.graph) }
    }
}

impl NavMesh {
    /// The category that the mesh is for.
    pub closed spec fn serves(self) -> NavCategory {
        self.category
    }

    /// A mesh is always in order: its nodes are finitely many, and every
    /// edge joins two of them.
    #[verifier::type_invariant]
    pub open spec fn in_order(self) -> bool {
        self@.wf()
    }

    /// An empty mesh for the category.
    pub fn new(category: NavCategory) -> (mesh: NavMesh)
        ensures
            mesh.serves() == category,
            mesh@.nodes == Set::<NodeKey>::empty(),
            mesh@.edges == Map::<(NodeKey, NodeKey), u32>::empty(),
            mesh@.wf(),
    {
        NavMesh { category, graph: graph_new() }
    }

    pub fn category(&self) -> (category: NavCategory)
        ensures
            category == self.serves(),
    {
        self.category
    }

    /// Whether the tile at the position is a node of the mesh.
    pub fn contains(&self, position: &GridPosition) -> (held: bool)
        ensures
            held == self@.nodes.contains(key(*position)),
    {
        graph_contains_node(&self.graph, (position.x, position.y, position.z))
    }

    /// The speed of the edge from one tile to another, where the mesh has
    /// the edge.
    pub fn edge_speed(&self, from: &GridPosition, to: &GridPosition) -> (speed: Option<u32>)
        ensures
            speed == (if self@.edges.contains_key((key(*from), key(*to))) {
                Some(self@.edges[(key(*from), key(*to))])
            } else {
                None
            }),
    {
        let list = graph_edges_from(&self.graph, (from.x, from.y, from.z));
        let target: NodeKey = (to.x, to.y, to.z);
        let mut i: usize = 0;
        while i < list.len()
            invariant
                i <= list.len(),
                target == key(*to),
                lists_edges_from(self@.edges, key(*from), list@),
                forall|k: int| 0 <= k < i ==> (#[trigger] list@[k]).0 != target,
            decreases list.len() - i,
        {
            let (node, speed) = list[i];
            if node.0 == target.0 && node.1 == target.1 && node.2 == target.2 {
                return Some(speed);
            }
            i += 1;
        }
        None
    }

    /// The edges that leave a tile: for each, once, the tile that it leads
    /// to and its speed. A tile that is no node has none.
    pub fn neighbors(&self, from: &GridPosition) -> (list: Vec<(GridPosition, u32)>)
        ensures
            lists_neighbors(self@.edges, *from, list@),
    {
        let found = graph_edges_from(&self.graph, (from.x, from.y, from.z));
        let mut list: Vec<(GridPosition, u32)> = Vec::new();
        let mut i: usize = 0;
        while i < found.len()
            invariant
                i <= found.len(),
                lists_edges_from(self@.edges, key(*from), found@),
                list@.len() == i,
                forall|k: int|
                    0 <= k < i ==> key((#[trigger] list@[k]).0) == found@[k].0 && list@[k].1
                        == found@[k].1,
            decreases found.len() - i,
        {
            let (node, speed) = found[i];
            list.push((GridPosition { x: node.0, y: node.1, z: node.2 }, speed));
            i += 1;
        }
        proof {
            assert forall|i: int, j: int| 0 <= i < j < list@.len() implies (#[trigger] list@[i]).0
                != (#[trigger] list@[j]).0 by {
                assert(found@[i].0 != found@[j].0);
            }
            assert forall|to: GridPosition| #[trigger]
                self@.edges.contains_key((key(*from), key(to))) implies exists|i: int|
                0 <= i < list@.len() && (#[trigger] list@[i]).0 == to by {
                let i = choose|i: int| 0 <= i < found@.len() && (#[trigger] found@[i]).0 == key(to);
                assert(key(list@[i].0) == key(to));
                assert(list@[i].0 == to);
            }
        }
        list
    }

    /// Enters the change of one tile into the mesh.
    pub fn update_vertex(&mut self, position: &GridPosition, vertex: NavComponent)
        ensures
            final(self).serves() == old(self).serves(),
            final(self)@ == old(self)@.updated(old(self).serves(), *position, vertex),
            final(self)@.wf(),
    {
        let node: NodeKey = (position.x, position.y, position.z);
        let ghost start = self@;
        proof {
            use_type_invariant(&*self);
        }
        // The graph is taken out while it is worked on, so that the mesh is
        // whole at every moment.
        let mut graph = graph_new();
        core::mem::swap(&mut self.graph, &mut graph);
        if belongs_in_mesh(self.category, vertex.navigability) {
            let _ = graph_remove_node(&mut graph, node);
            graph_add_node(&mut graph, node);
            let targets = position.neighbors_for(vertex.exits);
            proof {
                assert(mesh_nodes(graph) =~= start.nodes.insert(node));
                assert(mesh_edges(graph) =~= rejoined_edges(
                    start.edges,
                    *position,
                    targets@,
                    0,
                    start.nodes,
                    vertex.speed,
                ));
            }
            let mut i: usize = 0;
            while i < targets.len()
                invariant
                    i <= targets.len(),
                    node == key(*position),
                    start.wf(),
                    self.category == old(self).category,
                    targets@ == exit_targets(*position, vertex.exits),
                    mesh_nodes(graph) == start.nodes.insert(node),
                    mesh_edges(graph) == rejoined_edges(
                        start.edges,
                        *position,
                        targets@,
                        i as int,
                        start.nodes,
                        vertex.speed,
                    ),
                decreases targets.len() - i,
            {
                let neighbor = targets[i];
                let other: NodeKey = (neighbor.x, neighbor.y, neighbor.z);
                proof {
                    lemma_exit_targets_adjacent(*position, vertex.exits, i as int);
                    assert(other != node);
                }
                let ghost before = mesh_edges(graph);
                if graph_contains_node(&graph, other) {
                    let _ = graph_add_edge(&mut graph, node, other, vertex.speed);
                    let _ = graph_add_edge(&mut graph, other, node, vertex.speed);
                    assert(mesh_nodes(graph) =~= start.nodes.insert(node));
                }
                proof {
                    let after = rejoined_edges(
                        start.edges,
                        *position,
                        targets@,
                        i + 1,
                        start.nodes,
                        vertex.speed,
                    );
                    assert forall|e: (NodeKey, NodeKey)|
                        joins_target(*position, targets@, i + 1, start.nodes, e) <==> joins_target(
                            *position,
                            targets@,
                            i as int,
                            start.nodes,
                            e,
                        ) || (start.nodes.contains(other) && (e == (node, other) || e == (
                            other,
                            node,
                        ))) by {
                        if joins_target(*position, targets@, i + 1, start.nodes, e) {
                            let j = choose|j: int|
                                0 <= j < i + 1 && j < targets@.len() && start.nodes.contains(
                                    key(#[trigger] targets@[j]),
                                ) && (e == (key(*position), key(targets@[j])) || e == (
                                    key(targets@[j]),
                                    key(*position),
                                ));
                            if j < i {
                                assert(joins_target(*position, targets@, i as int, start.nodes, e));
                            }
                        }
                        if joins_target(*position, targets@, i as int, start.nodes, e) {
                            let j = choose|j: int|
                                0 <= j < i && j < targets@.len() && start.nodes.contains(
                                    key(#[trigger] targets@[j]),
                                ) && (e == (key(*position), key(targets@[j])) || e == (
                                    key(targets@[j]),
                                    key(*position),
                                ));
                            assert(joins_target(*position, targets@, i + 1, start.nodes, e));
                        }
                        if start.nodes.contains(other) && (e == (node, other) || e == (other, node)) {
                            assert(key(targets@[i as int]) == other);
                            assert(joins_target(*position, targets@, i + 1, start.nodes, e));
                        }
                    }
                    assert(mesh_edges(graph) =~= after);
                }
                i += 1;
            }
            proof {
                let done = MeshModel { nodes: mesh_nodes(graph), edges: mesh_edges(graph) };
                assert forall|e: (NodeKey, NodeKey)| #[trigger]
                    done.edges.contains_key(e) implies done.nodes.contains(e.0)
                    && done.nodes.contains(e.1) by {
                    if joins_target(*position, targets@, targets@.len() as int, start.nodes, e) {
                    } else {
                        assert(start.edges.contains_key(e));
                    }
                }
            }
        } else {
            let _ = graph_remove_node(&mut graph, node);
            proof {
                let done = MeshModel { nodes: mesh_nodes(graph), edges: mesh_edges(graph) };
                assert forall|e: (NodeKey, NodeKey)| #[trigger]
                    done.edges.contains_key(e) implies done.nodes.contains(e.0)
                    && done.nodes.contains(e.1) by {
                    assert(start.edges.contains_key(e));
                }
            }
        }
        self.graph = graph;
    }

    /// Enters the changes of tiles into the mesh, one after the other.
    pub fn update_vertices(&mut self, vertices: &Vec<(GridPosition, NavComponent)>)
        ensures
            final(self).serves() == old(self).serves(),
            final(self)@ == old(self)@.updated_all(
                old(self).serves(),
                vertices@,
                vertices@.len() as int,
            ),
            final(self)@.wf(),
    {
        proof {
            use_type_invariant(&*self);
        }
        let mut i: usize = 0;
        while i < vertices.len()
            invariant
                i <= vertices.len(),
                self.serves() == old(self).serves(),
                self@ == old(self)@.updated_all(old(self).serves(), vertices@, i as int),
                self@.wf(),
            decreases vertices.len() - i,
        {
            let (position, vertex) = vertices[i];
            self.update_vertex(&position, vertex);
            i += 1;
        }
    }
}

/// After a tile changed, it is a node of a mesh exactly when it is open to
/// the category of the mesh; so a tile that is open to vehicles is a node of
/// the meshes for vehicles and for people, and a tile that is open to people
/// only of the mesh for people. No other tile joins or leaves.
pub proof fn lemma_node_iff_open_to_category(
    model: MeshModel,
    category: NavCategory,
    position: GridPosition,
    vertex: NavComponent,
    other: GridPosition,
)
    ensures
        model.updated(category, position, vertex).nodes.contains(key(position))
            <==> category.within(vertex.navigability),
        NavCategory::People.within(NavCategory::Vehicles),
        NavCategory::Vehicles.within(NavCategory::Vehicles),
        NavCategory::People.within(NavCategory::People),
        !NavCategory::Vehicles.within(NavCategory::People),
        other != position ==> (model.updated(category, position, vertex).nodes.contains(
            key(other),
        ) <==> model.nodes.contains(key(other))),
{
}

} // verus!
