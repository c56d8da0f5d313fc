//! Routes through a mesh and what they cost.

use crate::geometry::GridPosition;
use crate::graph::NodeKey;
use crate::nav::key;
use vstd::prelude::*;

verus! {

/// True when every step of the route follows an edge.
pub open spec fn is_route(edges: Map<(NodeKey, NodeKey), u32>, route: Seq<GridPosition>) -> bool {
    &&& route.len() > 0
    &&& forall|i: int|
        0 <= i < route.len() - 1 ==> edges.contains_key(
            (key(#[trigger] route[i]), key(route[i + 1])),
        )
}

/// True when the route leads from `from` to `to`.
pub open spec fn leads(
    edges: Map<(NodeKey, NodeKey), u32>,
    route: Seq<GridPosition>,
    from: GridPosition,
    to: GridPosition,
) -> bool {
    is_route(edges, route) && route[0] == from && route.last() == to
}

/// True when a route leads from `from` to `to`. Every position reaches
/// itself.
pub open spec fn reachable(
    edges: Map<(NodeKey, NodeKey), u32>,
    from: GridPosition,
    to: GridPosition,
) -> bool {
    exists|route: Seq<GridPosition>| #[trigger] leads(edges, route, from, to)
}

/// The speeds of the edges of a route, added up.
pub open spec fn route_cost(edges: Map<(NodeKey, NodeKey), u32>, route: Seq<GridPosition>) -> int
    decreases route.len(),
{
    if route.len() <= 1 {
        0
    } else {
        edges[(key(route[0]), key(route[1]))] + route_cost(edges, route.drop_first())
    }
}

/// The distance between two positions on the ground, counted in steps
/// along x and y.
pub open spec fn ground_distance(from: GridPosition, to: GridPosition) -> int {
    crate::line::distance(from.x as int, to.x as int) + crate::line::distance(
        from.y as int,
        to.y as int,
    )
}

/// True when no edge shortens the distance to `end` by more than it costs.
/// This holds of every mesh whose edges join neighbouring tiles at a speed
/// of one or more.
pub open spec fn is_consistent(edges: Map<(NodeKey, NodeKey), u32>, end: GridPosition) -> bool {
    forall|a: GridPosition, b: GridPosition| #[trigger]
        edges.contains_key((key(a), key(b))) ==> ground_distance(a, end) <= edges[(key(a), key(b))]
            + ground_distance(b, end)
}

/// True when the route leads from `from` to `to` and no route between the
/// two costs less.
pub open spec fn is_cheapest(
    edges: Map<(NodeKey, NodeKey), u32>,
    route: Seq<GridPosition>,
    from: GridPosition,
    to: GridPosition,
) -> bool {
    &&& leads(edges, route, from, to)
    &&& forall|other: Seq<GridPosition>| #[trigger]
        leads(edges, other, from, to) ==> route_cost(edges, route) <= route_cost(edges, other)
}

/// A route costs nothing or more.
pub proof fn lemma_cost_not_negative(edges: Map<(NodeKey, NodeKey), u32>, route: Seq<GridPosition>)
    ensures
        route_cost(edges, route) >= 0,
    decreases route.len(),
{
    if route.len() > 1 {
        lemma_cost_not_negative(edges, route.drop_first());
    }
}

/// A part of a route is a route.
pub proof fn lemma_part_is_route(
    edges: Map<(NodeKey, NodeKey), u32>,
    route: Seq<GridPosition>,
    from: int,
    to: int,
)
    requires
        is_route(edges, route),
        0 <= from < to <= route.len(),
    ensures
        is_route(edges, route.subrange(from, to)),
{
    let part = route.subrange(from, to);
    assert forall|i: int| 0 <= i < part.len() - 1 implies edges.contains_key(
        (key(#[trigger] part[i]), key(part[i + 1])),
    ) by {
        assert(part[i] == route[from + i]);
        assert(part[i + 1] == route[from + i + 1]);
    }
}

/// A route with a step before it costs the step more.
pub proof fn lemma_cost_with_step_before(
    edges: Map<(NodeKey, NodeKey), u32>,
    first: GridPosition,
    rest: Seq<GridPosition>,
)
    requires
        rest.len() > 0,
    ensures
        route_cost(edges, seq![first] + rest) == edges[(key(first), key(rest[0]))] + route_cost(
            edges,
            rest,
        ),
{
    let whole = seq![first] + rest;
    assert(whole.drop_first() =~= rest);
    assert(whole[0] == first && whole[1] == rest[0]);
}

/// The cost of a route is the cost of its beginning plus the cost of its
/// end, wherever it is cut.
pub proof fn lemma_cost_splits(
    edges: Map<(NodeKey, NodeKey), u32>,
    route: Seq<GridPosition>,
    cut: int,
)
    requires
        0 <= cut < route.len(),
    ensures
        route_cost(edges, route) == route_cost(edges, route.subrange(0, cut + 1)) + route_cost(
            edges,
            route.subrange(cut, route.len() as int),
        ),
    decreases cut,
{
    if cut == 0 {
        assert(route.subrange(0, route.len() as int) =~= route);
    } else {
        let rest = route.drop_first();
        lemma_cost_splits(edges, rest, cut - 1);
        let head = route.subrange(0, cut + 1);
        assert(head.drop_first() =~= rest.subrange(0, cut));
        assert(rest.subrange(cut - 1, rest.len() as int) =~= route.subrange(
            cut,
            route.len() as int,
        ));
        assert(head[0] == route[0] && head[1] == route[1]);
    }
}

/// Along a route through a consistent mesh, the distance to `end` shrinks
/// by no more than the route costs.
pub proof fn lemma_distance_along_route(
    edges: Map<(NodeKey, NodeKey), u32>,
    end: GridPosition,
    route: Seq<GridPosition>,
)
    requires
        is_consistent(edges, end),
        is_route(edges, route),
    ensures
        ground_distance(route[0], end) <= route_cost(edges, route) + ground_distance(
            route.last(),
            end,
        ),
    decreases route.len(),
{
    if route.len() > 1 {
        let rest = route.drop_first();
        lemma_part_is_route(edges, route, 1, route.len() as int);
        assert(rest =~= route.subrange(1, route.len() as int));
        lemma_distance_along_route(edges, end, rest);
        assert(edges.contains_key((key(route[0int]), key(route[0int + 1]))));
        assert(rest[0] == route[1]);
        assert(rest.last() == route.last());
    }
}

} // verus!
