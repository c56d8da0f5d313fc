//! Finding a way through a navigation mesh.

use crate::geometry::GridPosition;
use crate::graph::NodeKey;
use crate::nav::{key, lists_neighbors, MeshModel, NavMesh};
use crate::route::{
    ground_distance, is_cheapest, is_consistent, is_route, leads, lemma_cost_not_negative,
    lemma_cost_splits, lemma_cost_with_step_before, lemma_distance_along_route,
    lemma_part_is_route, reachable, route_cost,
};
use crate::tile_set::TileSet;
use std::collections::VecDeque;
use vstd::prelude::*;

verus! {

/// A way through a mesh: the positions that it passes, from its start to
/// its end.
pub struct Path {
    segments: VecDeque<GridPosition>,
}

impl View for Path {
    type V = Seq<GridPosition>;

    closed spec fn view(&self) -> Seq<GridPosition> {
        self.segments@
    }
}

impl Path {
    /// The first position, if the path has one.
    pub fn start(&self) -> (first: Option<&GridPosition>)
        ensures
            self@.len() == 0 ==> first is None,
            self@.len() > 0 ==> first == Some(&self@[0]),
    {
        if self.segments.len() == 0 {
            None
        } else {
            Some(&self.segments[0])
        }
    }

    /// The last position, if the path has one.
    pub fn end(&self) -> (last: Option<&GridPosition>)
        ensures
            self@.len() == 0 ==> last is None,
            self@.len() > 0 ==> last == Some(&self@.last()),
    {
        let count = self.segments.len();
        if count == 0 {
            None
        } else {
            Some(&self.segments[count - 1])
        }
    }

    /// The number of positions.
    pub fn len(&self) -> (count: usize)
        ensures
            count == self@.len(),
    {
        self.segments.len()
    }

    /// The positions in order.
    pub fn positions(&self) -> (list: Vec<GridPosition>)
        ensures
            list@ == self@,
    {
        let mut list: Vec<GridPosition> = Vec::new();
        let mut i: usize = 0;
        while i < self.segments.len()
            invariant
                i <= self.segments@.len(),
                list@ == self.segments@.subrange(0, i as int),
            decreases self.segments@.len() - i,
        {
            list.push(self.segments[i]);
            assert(list@ =~= self.segments@.subrange(0, i + 1));
            i += 1;
        }
        assert(list@ =~= self@);
        list
    }

    /// The path that stays at one position.
    pub fn single(position: GridPosition) -> (path: Path)
        ensures
            path@ == seq![position],
    {
        let mut segments: VecDeque<GridPosition> = VecDeque::new();
        segments.push_back(position);
        assert(segments@ =~= seq![position]);
        Path { segments }
    }
}

impl Default for Path {
    fn default() -> (path: Path)
        ensures
            path@ == Seq::<GridPosition>::empty(),
    {
        Path { segments: VecDeque::new() }
    }
}

/// A position that the search is done with: how far it is from the start,
/// and from where it was reached.
#[derive(Clone, Copy)]
struct Visit {
    position: GridPosition,
    g: u128,
    pred: usize,
}

/// A position that the search has seen and not yet settled.
#[derive(Clone, Copy)]
struct Candidate {
    position: GridPosition,
    cost: u128,
    g: u128,
    pred: usize,
}

/// The largest cost of a single edge.
const EDGE_MAX: u64 = 0xffff_ffff;

/// True when the visit at `i` hangs on an earlier visit by an edge, and is
/// as far from the start as that visit plus the edge.
spec fn visit_ok(edges: Map<(NodeKey, NodeKey), u32>, closed: Seq<Visit>, i: int) -> bool {
    &&& closed[i].g <= i * EDGE_MAX
    &&& i == 0 ==> closed[i].pred == 0 && closed[i].g == 0
    &&& i > 0 ==> closed[i].pred < i && edges.contains_key(
        (key(closed[closed[i].pred as int].position), key(closed[i].position)),
    ) && closed[i].g == closed[closed[i].pred as int].g + edges[(
        key(closed[closed[i].pred as int].position),
        key(closed[i].position),
    )]
}

/// True when one of the visits is at the position.
spec fn visited(closed: Seq<Visit>, position: GridPosition) -> bool {
    exists|i: int| 0 <= i < closed.len() && (#[trigger] closed[i]).position == position
}

/// True when one of the candidates is at the position.
spec fn waiting(open: Seq<Candidate>, position: GridPosition) -> bool {
    exists|k: int| 0 <= k < open.len() && (#[trigger] open[k]).position == position
}

/// True when one of the candidates is at the position, no further from the
/// start than `bound`.
spec fn waiting_within(open: Seq<Candidate>, position: GridPosition, bound: int) -> bool {
    exists|k: int|
        0 <= k < open.len() && (#[trigger] open[k]).position == position && open[k].g <= bound
}

/// True when the candidate at `k` hangs on a visit by an edge, is as far
/// from the start as that visit plus the edge, and is not visited itself.
spec fn candidate_ok(
    edges: Map<(NodeKey, NodeKey), u32>,
    end: GridPosition,
    closed: Seq<Visit>,
    open: Seq<Candidate>,
    k: int,
) -> bool {
    &&& open[k].pred < closed.len()
    &&& open[k].g <= (open[k].pred + 1) * EDGE_MAX
    &&& edges.contains_key((key(closed[open[k].pred as int].position), key(open[k].position)))
    &&& open[k].g == closed[open[k].pred as int].g + edges[(
        key(closed[open[k].pred as int].position),
        key(open[k].position),
    )]
    &&& open[k].cost == open[k].g + ground_distance(open[k].position, end)
    &&& !visited(closed, open[k].position)
}

/// True when every edge that leaves the visit at `i` leads to a position
/// that is visited, or that waits no further from the start than the visit
/// plus the edge.
spec fn expanded(
    edges: Map<(NodeKey, NodeKey), u32>,
    closed: Seq<Visit>,
    open: Seq<Candidate>,
    i: int,
) -> bool {
    forall|to: GridPosition| #[trigger]
        edges.contains_key((key(closed[i].position), key(to))) ==> visited(closed, to)
            || waiting_within(
            open,
            to,
            closed[i].g + edges[(key(closed[i].position), key(to))],
        )
}

/// True when no route from the start to the visit at `i` costs less than
/// the visit is from the start.
spec fn settled_best(
    edges: Map<(NodeKey, NodeKey), u32>,
    start: GridPosition,
    closed: Seq<Visit>,
    i: int,
) -> bool {
    forall|route: Seq<GridPosition>| #[trigger]
        leads(edges, route, start, closed[i].position) ==> closed[i].g <= route_cost(edges, route)
}

/// What holds of a search between two steps: the visits hang together from
/// the start on, no position is visited or waiting twice, all visits but
/// the last have their edges followed and are not the end, and in a
/// consistent mesh every visit was reached by a cheapest route.
spec fn search_ok(
    edges: Map<(NodeKey, NodeKey), u32>,
    start: GridPosition,
    end: GridPosition,
    closed: Seq<Visit>,
    open: Seq<Candidate>,
    done: int,
) -> bool {
    &&& closed.len() > 0
    &&& closed[0].position == start
    &&& forall|i: int| 0 <= i < closed.len() ==> #[trigger] visit_ok(edges, closed, i)
    &&& forall|i: int, j: int|
        0 <= i < j < closed.len() ==> (#[trigger] closed[i]).position != (
        #[trigger] closed[j]).position
    &&& forall|k: int| 0 <= k < open.len() ==> #[trigger] candidate_ok(edges, end, closed, open, k)
    &&& forall|k: int, m: int|
        0 <= k < m < open.len() ==> (#[trigger] open[k]).position != (#[trigger] open[m]).position
    &&& forall|i: int| 0 <= i < done ==> #[trigger] expanded(edges, closed, open, i)
    &&& forall|i: int| 0 <= i < done ==> (#[trigger] closed[i]).position != end
    &&& is_consistent(edges, end) ==> forall|i: int|
        0 <= i < closed.len() ==> #[trigger] settled_best(edges, start, closed, i)
}

/// The position that a node stands for.
pub open spec fn position_of(node: NodeKey) -> GridPosition {
    GridPosition { x: node.0, y: node.1, z: node.2 }
}

/// A route that starts among visits whose edges all lead to visits ends
/// among them.
proof fn lemma_route_stays_visited(
    edges: Map<(NodeKey, NodeKey), u32>,
    closed: Seq<Visit>,
    open: Seq<Candidate>,
    route: Seq<GridPosition>,
    upto: int,
)
    requires
        is_route(edges, route),
        open.len() == 0,
        visited(closed, route[0]),
        forall|i: int| 0 <= i < closed.len() ==> #[trigger] expanded(edges, closed, open, i),
        0 <= upto < route.len(),
    ensures
        visited(closed, route[upto]),
    decreases upto,
{
    if upto > 0 {
        lemma_route_stays_visited(edges, closed, open, route, upto - 1);
        let i = choose|i: int|
            0 <= i < closed.len() && (#[trigger] closed[i]).position == route[upto - 1];
        assert(expanded(edges, closed, open, i));
        assert(edges.contains_key((key(route[upto - 1]), key(route[upto - 1 + 1]))));
        assert(edges.contains_key((key(closed[i].position), key(route[upto]))));
    }
}

/// On a route from a visited position to one that is not visited, some
/// step is the first to leave the visits.
proof fn lemma_first_step_out(closed: Seq<Visit>, route: Seq<GridPosition>, upto: int) -> (step:
    int)
    requires
        0 < upto < route.len(),
        visited(closed, route[0]),
        !visited(closed, route[upto]),
    ensures
        0 < step <= upto,
        visited(closed, route[step - 1]),
        !visited(closed, route[step]),
    decreases upto,
{
    if visited(closed, route[upto - 1]) {
        upto
    } else {
        lemma_first_step_out(closed, route, upto - 1)
    }
}

/// The distance between two positions in steps along x and y, whatever
/// their levels.
pub fn heuristic(from: GridPosition, to: GridPosition) -> (steps: u64)
    ensures
        steps == ground_distance(from, to),
{
    let across: i64 = if from.x <= to.x {
        to.x as i64 - from.x as i64
    } else {
        from.x as i64 - to.x as i64
    };
    let up: i64 = if from.y <= to.y {
        to.y as i64 - from.y as i64
    } else {
        from.y as i64 - to.y as i64
    };
    (across + up) as u64
}

/// True when the first candidate comes before the second: it costs less,
/// or it costs the same and its position comes first by x, then y, then z.
spec fn comes_before(a: Candidate, b: Candidate) -> bool {
    a.cost < b.cost || (a.cost == b.cost && (a.position.x < b.position.x || (a.position.x
        == b.position.x && (a.position.y < b.position.y || (a.position.y == b.position.y
        && a.position.z < b.position.z)))))
}

fn is_before(a: &Candidate, b: &Candidate) -> (before: bool)
    ensures
        before == comes_before(*a, *b),
{
    a.cost < b.cost || (a.cost == b.cost && (a.position.x < b.position.x || (a.position.x
        == b.position.x && (a.position.y < b.position.y || (a.position.y == b.position.y
        && a.position.z < b.position.z)))))
}

/// The place of the candidate that comes before all others.
fn cheapest(open: &Vec<Candidate>) -> (best: usize)
    requires
        open@.len() > 0,
    ensures
        best < open@.len(),
        forall|k: int| 0 <= k < open@.len() ==> !comes_before(#[trigger] open@[k], open@[best as int]),
{
    let mut best: usize = 0;
    let mut k: usize = 1;
    while k < open.len()
        invariant
            1 <= k <= open@.len(),
            best < k,
            forall|m: int| 0 <= m < k ==> !comes_before(#[trigger] open@[m], open@[best as int]),
        decreases open.len() - k,
    {
        if is_before(&open[k], &open[best]) {
            best = k;
        }
        k += 1;
    }
    best
}

/// The place of the candidate at the position, if one is there.
fn find_candidate(open: &Vec<Candidate>, position: GridPosition) -> (found: Option<usize>)
    ensures
        match found {
            Some(k) => k < open@.len() && open@[k as int].position == position,
            None => !waiting(open@, position),
        },
{
    let mut k: usize = 0;
    while k < open.len()
        invariant
            k <= open@.len(),
            forall|m: int| 0 <= m < k ==> (#[trigger] open@[m]).position != position,
        decreases open.len() - k,
    {
        let here = open[k].position;
        if here.x == position.x && here.y == position.y && here.z == position.z {
            return Some(k);
        }
        k += 1;
    }
    None
}

/// Walks back from the last visit to the first and lists the positions on
/// the way.
fn backtrack(closed: &Vec<Visit>, Ghost(edges): Ghost<Map<(NodeKey, NodeKey), u32>>) -> (path: Path)
    requires
        closed@.len() > 0,
        forall|i: int| 0 <= i < closed@.len() ==> #[trigger] visit_ok(edges, closed@, i),
    ensures
        leads(edges, path@, closed@[0].position, closed@.last().position),
        route_cost(edges, path@) == closed@.last().g,
{
    let mut segments: VecDeque<GridPosition> = VecDeque::new();
    let mut i: usize = closed.len() - 1;
    segments.push_front(closed[i].position);
    assert(visit_ok(edges, closed@, 0));
    while i != 0
        invariant
            i < closed@.len(),
            forall|k: int| 0 <= k < closed@.len() ==> #[trigger] visit_ok(edges, closed@, k),
            is_route(edges, segments@),
            segments@[0] == closed@[i as int].position,
            segments@.last() == closed@.last().position,
            route_cost(edges, segments@) + closed@[i as int].g == closed@.last().g,
        decreases i,
    {
        assert(visit_ok(edges, closed@, i as int));
        let before = closed[i].pred;
        let ghost rest = segments@;
        segments.push_front(closed[before].position);
        proof {
            assert(segments@ =~= seq![closed@[before as int].position] + rest);
            lemma_cost_with_step_before(edges, closed@[before as int].position, rest);
            assert forall|k: int| 0 <= k < segments@.len() - 1 implies edges.contains_key(
                (key(#[trigger] segments@[k]), key(segments@[k + 1])),
            ) by {
                if k > 0 {
                    assert(segments@[k] == rest[k - 1]);
                    assert(segments@[k + 1] == rest[k - 1 + 1]);
                }
            }
        }
        i = before;
    }
    Path { segments }
}

/// True when the set holds exactly the visited positions, each counted
/// once.
spec fn marks_visits(marked: Set<GridPosition>, closed: Seq<Visit>) -> bool {
    &&& marked.finite()
    &&& marked.len() == closed.len()
    &&& forall|p: GridPosition| #[trigger] marked.contains(p) <==> visited(closed, p)
}

/// The positions that a search from `start` can ever visit: the start and
/// the nodes of the mesh.
spec fn search_space(nodes: Set<NodeKey>, start: GridPosition) -> Set<GridPosition> {
    nodes.map(|node: NodeKey| position_of(node)).insert(start)
}

/// A bound on the cost of reaching a visit keeps all sums of the search
/// within `u128`.
proof fn lemma_cost_fits(g: u128, index: int, speed: u32)
    requires
        0 <= index <= usize::MAX,
        g <= index * EDGE_MAX,
    ensures
        g + speed <= (index + 1) * EDGE_MAX,
        g + speed + 2 * 0x1_0000_0000 <= u128::MAX,
{
    assert(index * EDGE_MAX <= 0xffff_ffff_ffff_ffff * 0xffff_ffff) by (nonlinear_arith)
        requires
            0 <= index <= 0xffff_ffff_ffff_ffff,
            EDGE_MAX == 0xffff_ffff,
    ;
    assert((index + 1) * EDGE_MAX == index * EDGE_MAX + EDGE_MAX) by (nonlinear_arith);
}

/// True when the second list of candidates has a candidate wherever the
/// first has one, no further from the start: it is as long or longer, and
/// the positions of the first are found at their places.
spec fn keeps_positions(before: Seq<Candidate>, after: Seq<Candidate>) -> bool {
    &&& before.len() <= after.len()
    &&& forall|k: int|
        0 <= k < before.len() ==> (#[trigger] after[k]).position == before[k].position && after[k].g
            <= before[k].g
}

/// The visits stay expanded where all waiting positions are kept.
proof fn lemma_expanded_kept(
    edges: Map<(NodeKey, NodeKey), u32>,
    closed: Seq<Visit>,
    before: Seq<Candidate>,
    after: Seq<Candidate>,
    i: int,
)
    requires
        keeps_positions(before, after),
        expanded(edges, closed, before, i),
    ensures
        expanded(edges, closed, after, i),
{
    assert forall|to: GridPosition| #[trigger]
        edges.contains_key((key(closed[i].position), key(to))) implies visited(closed, to)
        || waiting_within(after, to, closed[i].g + edges[(key(closed[i].position), key(to))]) by {
        let bound = closed[i].g + edges[(key(closed[i].position), key(to))];
        if waiting_within(before, to, bound) {
            let k = choose|k: int|
                0 <= k < before.len() && (#[trigger] before[k]).position == to && before[k].g
                    <= bound;
            assert(after[k].position == to && after[k].g <= bound);
        }
    }
}

/// The search stays in order when a candidate gives way to a better one at
/// the same position.
proof fn lemma_still_ok_after_replace(
    edges: Map<(NodeKey, NodeKey), u32>,
    start: GridPosition,
    end: GridPosition,
    closed: Seq<Visit>,
    before: Seq<Candidate>,
    after: Seq<Candidate>,
    k: int,
)
    requires
        search_ok(edges, start, end, closed, before, closed.len() - 1),
        0 <= k < before.len(),
        after == before.update(k, after[k]),
        after[k].position == before[k].position,
        after[k].g <= before[k].g,
        after[k].pred == closed.len() - 1,
        after[k].g <= closed.len() * EDGE_MAX,
        edges.contains_key((key(closed.last().position), key(after[k].position))),
        after[k].g == closed.last().g + edges[(key(closed.last().position), key(after[k].position))],
        after[k].cost == after[k].g + ground_distance(after[k].position, end),
    ensures
        search_ok(edges, start, end, closed, after, closed.len() - 1),
        keeps_positions(before, after),
{
    assert forall|m: int| 0 <= m < after.len() implies #[trigger] candidate_ok(
        edges,
        end,
        closed,
        after,
        m,
    ) by {
        assert(candidate_ok(edges, end, closed, before, m));
    }
    assert forall|m: int, n: int| 0 <= m < n < after.len() implies (#[trigger] after[m]).position
        != (#[trigger] after[n]).position by {
        assert(before[m].position != before[n].position);
    }
    assert(keeps_positions(before, after));
    assert forall|i: int| 0 <= i < closed.len() - 1 implies #[trigger] expanded(
        edges,
        closed,
        after,
        i,
    ) by {
        assert(expanded(edges, closed, before, i));
        lemma_expanded_kept(edges, closed, before, after, i);
    }
}

/// The search stays in order when a new candidate joins.
proof fn lemma_still_ok_after_push(
    edges: Map<(NodeKey, NodeKey), u32>,
    start: GridPosition,
    end: GridPosition,
    closed: Seq<Visit>,
    before: Seq<Candidate>,
    after: Seq<Candidate>,
)
    requires
        search_ok(edges, start, end, closed, before, closed.len() - 1),
        after == before.push(after.last()),
        after.len() == before.len() + 1,
        !waiting(before, after.last().position),
        !visited(closed, after.last().position),
        after.last().pred == closed.len() - 1,
        after.last().g <= closed.len() * EDGE_MAX,
        edges.contains_key((key(closed.last().position), key(after.last().position))),
        after.last().g == closed.last().g + edges[(
            key(closed.last().position),
            key(after.last().position),
        )],
        after.last().cost == after.last().g + ground_distance(after.last().position, end),
    ensures
        search_ok(edges, start, end, closed, after, closed.len() - 1),
        keeps_positions(before, after),
{
    assert forall|m: int| 0 <= m < after.len() implies #[trigger] candidate_ok(
        edges,
        end,
        closed,
        after,
        m,
    ) by {
        if m < before.len() {
            assert(candidate_ok(edges, end, closed, before, m));
        }
    }
    assert forall|m: int, n: int| 0 <= m < n < after.len() implies (#[trigger] after[m]).position
        != (#[trigger] after[n]).position by {
        if n < before.len() {
            assert(before[m].position != before[n].position);
        } else {
            assert(before[m].position == after[m].position);
        }
    }
    assert(keeps_positions(before, after));
    assert forall|i: int| 0 <= i < closed.len() - 1 implies #[trigger] expanded(
        edges,
        closed,
        after,
        i,
    ) by {
        assert(expanded(edges, closed, before, i));
        lemma_expanded_kept(edges, closed, before, after, i);
    }
}

/// Follows the edges that leave the last visit: every tile that they lead
/// to, and that is not visited, becomes a candidate, or replaces the
/// candidate at its position where the new way is strictly shorter.
fn expand(
    mesh: &NavMesh,
    closed: &Vec<Visit>,
    marked: &TileSet,
    open: &mut Vec<Candidate>,
    Ghost(start): Ghost<GridPosition>,
    end: GridPosition,
)
    requires
        search_ok(mesh@.edges, start, end, closed@, old(open)@, closed@.len() - 1),
        marks_visits(marked@, closed@),
        closed@.last().position != end,
    ensures
        search_ok(mesh@.edges, start, end, closed@, final(open)@, closed@.len() as int),
{
    let ghost edges = mesh@.edges;
    let current: usize = closed.len() - 1;
    let here = closed[current];
    let list = mesh.neighbors(&here.position);
    let mut j: usize = 0;
    while j < list.len()
        invariant
            j <= list.len(),
            edges == mesh@.edges,
            current == closed@.len() - 1,
            here == closed@[current as int],
            lists_neighbors(edges, here.position, list@),
            search_ok(edges, start, end, closed@, open@, closed@.len() - 1),
            marks_visits(marked@, closed@),
            forall|m: int|
                0 <= m < j ==> visited(closed@, (#[trigger] list@[m]).0) || waiting_within(
                    open@,
                    list@[m].0,
                    here.g + list@[m].1,
                ),
        decreases list.len() - j,
    {
        let (neighbor, speed) = list[j];
        let ghost before = open@;
        if !marked.contains(&neighbor) {
            assert(visit_ok(edges, closed@, current as int));
            proof {
                lemma_cost_fits(here.g, current as int, speed);
            }
            let g: u128 = here.g + speed as u128;
            let fresh = Candidate {
                position: neighbor,
                cost: g + heuristic(neighbor, end) as u128,
                g,
                pred: current,
            };
            match find_candidate(open, neighbor) {
                Some(k) => {
                    if g < open[k].g {
                        open.set(k, fresh);
                        proof {
                            lemma_still_ok_after_replace(
                                edges,
                                start,
                                end,
                                closed@,
                                before,
                                open@,
                                k as int,
                            );
                        }
                    } else {
                        assert(keeps_positions(before, open@));
                    }
                    assert(open@[k as int].position == neighbor && open@[k as int].g <= here.g
                        + speed);
                    assert(waiting_within(open@, neighbor, here.g + speed));
                },
                None => {
                    open.push(fresh);
                    proof {
                        lemma_still_ok_after_push(edges, start, end, closed@, before, open@);
                        assert(open@[before.len() as int].position == neighbor
                            && open@[before.len() as int].g <= here.g + speed);
                        assert(waiting_within(open@, neighbor, here.g + speed));
                    }
                },
            }
        } else {
            assert(visited(closed@, neighbor));
            assert(keeps_positions(before, open@));
        }
        proof {
            assert forall|m: int| 0 <= m < j + 1 implies visited(closed@, (#[trigger] list@[m]).0)
                || waiting_within(open@, list@[m].0, here.g + list@[m].1) by {
                if m < j {
                    let bound = here.g + list@[m].1;
                    if waiting_within(before, list@[m].0, bound) {
                        let k = choose|k: int|
                            0 <= k < before.len() && (#[trigger] before[k]).position == list@[m].0
                                && before[k].g <= bound;
                        assert(open@[k].position == list@[m].0 && open@[k].g <= bound);
                    }
                }
            }
        }
        j += 1;
    }
    proof {
        assert forall|to: GridPosition| #[trigger]
            edges.contains_key((key(closed@[current as int].position), key(to))) implies visited(
            closed@,
            to,
        ) || waiting_within(
            open@,
            to,
            closed@[current as int].g + edges[(key(closed@[current as int].position), key(to))],
        ) by {
            let m = choose|m: int| 0 <= m < list@.len() && (#[trigger] list@[m]).0 == to;
            assert(visited(closed@, list@[m].0) || waiting_within(
                open@,
                list@[m].0,
                here.g + list@[m].1,
            ));
        }
        assert(expanded(edges, closed@, open@, current as int));
    }
}

/// A route through a consistent mesh costs at least what a position on it
/// is from the start, plus what the distance to the end shrinks from there
/// on: where the route is cut, the way to the cut is bounded by the
/// beginning of the route and the step to the cut.
proof fn lemma_route_bounds_cut(
    edges: Map<(NodeKey, NodeKey), u32>,
    end: GridPosition,
    route: Seq<GridPosition>,
    step: int,
    before: int,
    at_cut: int,
)
    requires
        is_consistent(edges, end),
        is_route(edges, route),
        0 < step < route.len(),
        before <= route_cost(edges, route.subrange(0, step)),
        at_cut <= before + edges[(key(route[step - 1]), key(route[step]))],
    ensures
        at_cut + ground_distance(route[step], end) <= route_cost(edges, route) + ground_distance(
            route.last(),
            end,
        ),
{
    let weight = edges[(key(route[step - 1]), key(route[step]))];
    let beginning = route.subrange(0, step);
    let reaching = route.subrange(0, step + 1);
    lemma_cost_splits(edges, reaching, step - 1);
    assert(reaching.subrange(0, step) =~= beginning);
    let hop = reaching.subrange(step - 1, reaching.len() as int);
    assert(hop =~= seq![route[step - 1], route[step]]);
    assert(route_cost(edges, hop) == weight) by {
        assert(hop.drop_first() =~= seq![route[step]]);
        assert(route_cost(edges, hop.drop_first()) == 0);
        assert(hop[0] == route[step - 1] && hop[1] == route[step]);
    }
    assert(route_cost(edges, reaching) == route_cost(edges, beginning) + weight);
    let rest = route.subrange(step, route.len() as int);
    lemma_cost_splits(edges, route, step);
    lemma_part_is_route(edges, route, step, route.len() as int);
    lemma_distance_along_route(edges, end, rest);
    assert(rest[0] == route[step] && rest.last() == route.last());
}

/// In a consistent mesh, the candidate that comes before all others was
/// reached by a cheapest route: any route to it leaves the visits at some
/// step, and the candidate at that step would come first if the route were
/// cheaper.
proof fn lemma_best_candidate_is_settled(
    edges: Map<(NodeKey, NodeKey), u32>,
    start: GridPosition,
    end: GridPosition,
    closed: Seq<Visit>,
    open: Seq<Candidate>,
    best: int,
    route: Seq<GridPosition>,
)
    requires
        is_consistent(edges, end),
        closed.len() > 0,
        closed[0].position == start,
        forall|i: int| 0 <= i < closed.len() ==> #[trigger] expanded(edges, closed, open, i),
        forall|i: int| 0 <= i < closed.len() ==> #[trigger] settled_best(edges, start, closed, i),
        forall|k: int|
            0 <= k < open.len() ==> (#[trigger] open[k]).cost == open[k].g + ground_distance(
                open[k].position,
                end,
            ),
        0 <= best < open.len(),
        !visited(closed, open[best].position),
        forall|k: int| 0 <= k < open.len() ==> !comes_before(#[trigger] open[k], open[best]),
        leads(edges, route, start, open[best].position),
    ensures
        open[best].g <= route_cost(edges, route),
{
    let target = open[best].position;
    assert(visited(closed, route[0])) by {
        assert(closed[0].position == start);
    }
    let last = route.len() - 1;
    let step = lemma_first_step_out(closed, route, last);
    let i = choose|i: int| 0 <= i < closed.len() && (#[trigger] closed[i]).position == route[step - 1];
    assert(expanded(edges, closed, open, i));
    assert(edges.contains_key((key(route[step - 1]), key(route[step - 1 + 1]))));
    let weight = edges[(key(route[step - 1]), key(route[step]))];
    assert(edges.contains_key((key(closed[i].position), key(route[step]))));
    assert(waiting_within(open, route[step], closed[i].g + weight));
    let m = choose|m: int|
        0 <= m < open.len() && (#[trigger] open[m]).position == route[step] && open[m].g
            <= closed[i].g + weight;
    assert(!comes_before(open[m], open[best]));
    let beginning = route.subrange(0, step);
    lemma_part_is_route(edges, route, 0, step);
    assert(beginning[0] == route[0] && beginning.last() == route[step - 1]);
    assert(settled_best(edges, start, closed, i));
    assert(leads(edges, beginning, start, closed[i].position));
    lemma_route_bounds_cut(edges, end, route, step, closed[i].g as int, open[m].g as int);
    assert(open[m].cost == open[m].g + ground_distance(open[m].position, end));
    assert(open[best].cost == open[best].g + ground_distance(open[best].position, end));
}

/// Settles the candidate that comes before all others: it leaves the
/// candidates and becomes the last visit.
fn settle(
    closed: &mut Vec<Visit>,
    marked: &mut TileSet,
    open: &mut Vec<Candidate>,
    Ghost(model): Ghost<MeshModel>,
    Ghost(start): Ghost<GridPosition>,
    Ghost(end): Ghost<GridPosition>,
)
    requires
        model.wf(),
        old(open)@.len() > 0,
        search_ok(model.edges, start, end, old(closed)@, old(open)@, old(closed)@.len() as int),
        marks_visits(old(marked)@, old(closed)@),
        old(marked)@.subset_of(search_space(model.nodes, start)),
    ensures
        final(closed)@.len() == old(closed)@.len() + 1,
        search_ok(
            model.edges,
            start,
            end,
            final(closed)@,
            final(open)@,
            final(closed)@.len() - 1,
        ),
        marks_visits(final(marked)@, final(closed)@),
        final(marked)@.subset_of(search_space(model.nodes, start)),
{
    let ghost edges = model.edges;
    let ghost closed_before = closed@;
    let ghost open_before = open@;
    let ghost marked_before = marked@;
    let best = cheapest(open);
    let next = open.remove(best);
    assert(candidate_ok(edges, end, closed_before, open_before, best as int));
    closed.push(Visit { position: next.position, g: next.g, pred: next.pred });
    let _ = marked.insert(next.position);
    proof {
        let n = closed_before.len() as int;
        assert(closed@ == closed_before.push(closed@[n]));
        assert(open@ =~= open_before.remove(best as int));
        assert((next.pred + 1) * EDGE_MAX <= n * EDGE_MAX) by (nonlinear_arith)
            requires
                next.pred + 1 <= n,
                EDGE_MAX == 0xffff_ffff,
        ;
        lemma_settle_keeps_order(edges, start, end, closed_before, open_before, best as int, closed@, open@);
        assert forall|p: GridPosition| #[trigger] marked@.contains(p) <==> visited(closed@, p) by {
            lemma_visited_after_push(closed_before, closed@, p);
        }
        assert(!marked_before.contains(next.position));
        assert(model.nodes.contains(key(next.position)));
        assert(position_of(key(next.position)) == next.position);
        assert(model.nodes.map(|node: NodeKey| position_of(node)).contains(next.position));
    }
}

/// A position is visited after one more visit when it was visited before or
/// is the new one.
proof fn lemma_visited_after_push(before: Seq<Visit>, after: Seq<Visit>, p: GridPosition)
    requires
        after.len() == before.len() + 1,
        after == before.push(after.last()),
    ensures
        visited(after, p) <==> visited(before, p) || p == after.last().position,
{
    let n = before.len() as int;
    if visited(after, p) {
        let i = choose|i: int| 0 <= i < after.len() && (#[trigger] after[i]).position == p;
        if i < n {
            assert(before[i].position == p);
        }
    }
    if visited(before, p) {
        let i = choose|i: int| 0 <= i < before.len() && (#[trigger] before[i]).position == p;
        assert(after[i].position == p);
    }
    assert(after[n].position == after.last().position);
}

/// The search stays in order when the best candidate becomes a visit.
proof fn lemma_settle_keeps_order(
    edges: Map<(NodeKey, NodeKey), u32>,
    start: GridPosition,
    end: GridPosition,
    closed_before: Seq<Visit>,
    open_before: Seq<Candidate>,
    best: int,
    closed: Seq<Visit>,
    open: Seq<Candidate>,
)
    requires
        search_ok(edges, start, end, closed_before, open_before, closed_before.len() as int),
        0 <= best < open_before.len(),
        forall|k: int|
            0 <= k < open_before.len() ==> !comes_before(
                #[trigger] open_before[k],
                open_before[best],
            ),
        open == open_before.remove(best),
        closed == closed_before.push(
            Visit {
                position: open_before[best].position,
                g: open_before[best].g,
                pred: open_before[best].pred,
            },
        ),
        open_before[best].g <= closed_before.len() * EDGE_MAX,
    ensures
        search_ok(edges, start, end, closed, open, closed.len() - 1),
{
    let n = closed_before.len() as int;
    let next = open_before[best];
    assert(candidate_ok(edges, end, closed_before, open_before, best));
    assert forall|p: GridPosition| visited(closed, p) <==> visited(closed_before, p) || p
        == next.position by {
        lemma_visited_after_push(closed_before, closed, p);
    }
    assert forall|i: int| 0 <= i < closed.len() implies #[trigger] visit_ok(edges, closed, i) by {
        if i < n {
            assert(visit_ok(edges, closed_before, i));
            assert(closed[i] == closed_before[i]);
            assert(closed[closed[i].pred as int] == closed_before[closed[i].pred as int]);
        } else {
            assert(closed[next.pred as int] == closed_before[next.pred as int]);
        }
    }
    assert forall|i: int, j: int| 0 <= i < j < closed.len() implies (#[trigger] closed[i]).position
        != (#[trigger] closed[j]).position by {
        if j < n {
            assert(closed_before[i].position != closed_before[j].position);
        } else {
            assert(closed[i] == closed_before[i]);
        }
    }
    assert forall|k: int| 0 <= k < open.len() implies #[trigger] candidate_ok(
        edges,
        end,
        closed,
        open,
        k,
    ) by {
        let origin = if k < best {
            k
        } else {
            k + 1
        };
        assert(open[k] == open_before[origin]);
        assert(candidate_ok(edges, end, closed_before, open_before, origin));
        assert(closed[open[k].pred as int] == closed_before[open[k].pred as int]);
        assert(open_before[origin].position != open_before[best].position);
    }
    assert forall|k: int, m: int| 0 <= k < m < open.len() implies (#[trigger] open[k]).position != (
    #[trigger] open[m]).position by {
        let ok = if k < best {
            k
        } else {
            k + 1
        };
        let om = if m < best {
            m
        } else {
            m + 1
        };
        assert(open[k] == open_before[ok]);
        assert(open[m] == open_before[om]);
        assert(open_before[ok].position != open_before[om].position);
    }
    assert forall|i: int| 0 <= i < closed.len() - 1 implies #[trigger] expanded(
        edges,
        closed,
        open,
        i,
    ) by {
        assert(expanded(edges, closed_before, open_before, i));
        assert(closed[i] == closed_before[i]);
        assert forall|to: GridPosition| #[trigger]
            edges.contains_key((key(closed[i].position), key(to))) implies visited(closed, to)
            || waiting_within(open, to, closed[i].g + edges[(key(closed[i].position), key(to))]) by {
            let bound = closed[i].g + edges[(key(closed[i].position), key(to))];
            if waiting_within(open_before, to, bound) {
                let k = choose|k: int|
                    0 <= k < open_before.len() && (#[trigger] open_before[k]).position == to
                        && open_before[k].g <= bound;
                if k < best {
                    assert(open[k] == open_before[k]);
                } else if k > best {
                    assert(open[k - 1] == open_before[k]);
                }
            }
        }
    }
    assert forall|i: int| 0 <= i < closed.len() - 1 implies (#[trigger] closed[i]).position
        != end by {
        assert(closed[i] == closed_before[i]);
    }
    assert(closed[0] == closed_before[0]);
    if is_consistent(edges, end) {
        assert forall|i: int| 0 <= i < closed.len() implies #[trigger] settled_best(
            edges,
            start,
            closed,
            i,
        ) by {
            if i < n {
                assert(settled_best(edges, start, closed_before, i));
                assert(closed[i] == closed_before[i]);
            } else {
                assert forall|k: int| 0 <= k < open_before.len() implies (
                #[trigger] open_before[k]).cost == open_before[k].g + ground_distance(
                    open_before[k].position,
                    end,
                ) by {
                    assert(candidate_ok(edges, end, closed_before, open_before, k));
                }
                assert forall|route: Seq<GridPosition>| #[trigger]
                    leads(edges, route, start, closed[i].position) implies closed[i].g
                    <= route_cost(edges, route) by {
                    lemma_best_candidate_is_settled(
                        edges,
                        start,
                        end,
                        closed_before,
                        open_before,
                        best,
                        route,
                    );
                }
            }
        }
    }
}

impl NavMesh {
    /// Finds a way from `start` to `end` along the edges of the mesh.
    ///
    /// The search settles one tile after the other, always the one for
    /// which the way so far plus the distance left to the end, in steps
    /// along x and y, is least; among equals the one whose position comes
    /// first by x, then y, then z. There is a way exactly when a route of
    /// edges leads from the start to the end, and a position reaches itself.
    /// In a mesh where no edge shortens the distance to the end by more than
    /// its speed, the way is a cheapest one.
    pub fn pathfind(&self, start: GridPosition, end: GridPosition) -> (found: Option<Path>)
        ensures
            found is Some <==> reachable(self@.edges, start, end),
            found matches Some(path) ==> leads(self@.edges, path@, start, end),
            found matches Some(path) ==> is_consistent(self@.edges, end) ==> is_cheapest(
                self@.edges,
                path@,
                start,
                end,
            ),
    {
        let ghost model = self@;
        let ghost space = search_space(model.nodes, start);
        proof {
            use_type_invariant(self);
        }
        let mut closed: Vec<Visit> = Vec::new();
        closed.push(Visit { position: start, g: 0, pred: 0 });
        let mut marked = TileSet::new();
        let _ = marked.insert(start);
        let mut open: Vec<Candidate> = Vec::new();
        proof {
            model.nodes.lemma_map_finite(|node: NodeKey| position_of(node));
            assert(visit_ok(model.edges, closed@, 0));
            assert forall|p: GridPosition| #[trigger] marked@.contains(p) <==> visited(
                closed@,
                p,
            ) by {
                if p == start {
                    assert(closed@[0].position == p);
                }
            }
            assert forall|route: Seq<GridPosition>| #[trigger]
                leads(model.edges, route, start, closed@[0].position) implies closed@[0].g
                <= route_cost(model.edges, route) by {
                lemma_cost_not_negative(model.edges, route);
            }
            assert(settled_best(model.edges, start, closed@, 0));
        }
        loop
            invariant
                model == self@,
                model.wf(),
                space == search_space(model.nodes, start),
                space.finite(),
                search_ok(model.edges, start, end, closed@, open@, closed@.len() - 1),
                marks_visits(marked@, closed@),
                marked@.subset_of(space),
            decreases space.len() - closed@.len(),
        {
            let current: usize = closed.len() - 1;
            if closed[current].position.x == end.x && closed[current].position.y == end.y
                && closed[current].position.z == end.z {
                let path = backtrack(&closed, Ghost(model.edges));
                proof {
                    if is_consistent(model.edges, end) {
                        assert(settled_best(model.edges, start, closed@, current as int));
                    }
                }
                return Some(path);
            }
            expand(self, &closed, &marked, &mut open, Ghost(start), end);
            if open.len() == 0 {
                proof {
                    if reachable(model.edges, start, end) {
                        let route = choose|route: Seq<GridPosition>| #[trigger]
                            leads(model.edges, route, start, end);
                        assert(closed@[0].position == start);
                        assert(visited(closed@, route[0]));
                        lemma_route_stays_visited(
                            model.edges,
                            closed@,
                            open@,
                            route,
                            route.len() - 1,
                        );
                        let i = choose|i: int|
                            0 <= i < closed@.len() && (#[trigger] closed@[i]).position == end;
                        assert(closed@[i].position != end);
                    }
                }
                return None;
            }
            settle(&mut closed, &mut marked, &mut open, Ghost(model), Ghost(start), Ghost(end));
            proof {
                vstd::set_lib::lemma_len_subset(marked@, space);
            }
        }
    }
}

} // verus!
