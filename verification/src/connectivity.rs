//! What it means for a set of tiles to hang together.
//!
//! Two tiles are neighbours when they are one step apart along x or y on the
//! same level. A set is connected when a walk over neighbouring tiles of the
//! set leads from any of its tiles to any other.

use crate::geometry::GridPosition;
use vstd::prelude::*;

verus! {

/// True when `path` is a walk inside `tiles`: it is not empty, stays in the
/// set, and each of its steps leads to a neighbour.
pub open spec fn is_walk(tiles: Set<GridPosition>, path: Seq<GridPosition>) -> bool {
    &&& path.len() > 0
    &&& forall|i: int| 0 <= i < path.len() ==> tiles.contains(#[trigger] path[i])
    &&& forall|i: int| 0 <= i < path.len() - 1 ==> (#[trigger] path[i]).adjacent(path[i + 1])
}

/// True when a walk inside `tiles` leads from `from` to `to`.
pub open spec fn linked(tiles: Set<GridPosition>, from: GridPosition, to: GridPosition) -> bool {
    exists|path: Seq<GridPosition>|
        #[trigger] is_walk(tiles, path) && path[0] == from && path.last() == to
}

/// True when every tile of the set can be reached from every other.
pub open spec fn is_connected(tiles: Set<GridPosition>) -> bool {
    forall|a: GridPosition, b: GridPosition|
        tiles.contains(a) && tiles.contains(b) ==> #[trigger] linked(tiles, a, b)
}

/// True when no step leads from `part` to a tile of `tiles` outside it.
pub open spec fn is_closed_in(tiles: Set<GridPosition>, part: Set<GridPosition>) -> bool {
    forall|a: GridPosition, b: GridPosition|
        #![trigger part.contains(a), tiles.contains(b)]
        part.contains(a) && tiles.contains(b) && a.adjacent(b) ==> part.contains(b)
}

/// True when `part` is one of the connected pieces of `tiles`: a connected,
/// non-empty subset that no step leaves.
pub open spec fn is_component(tiles: Set<GridPosition>, part: Set<GridPosition>) -> bool {
    &&& exists|t: GridPosition| part.contains(t)
    &&& part.subset_of(tiles)
    &&& is_connected(part)
    &&& is_closed_in(tiles, part)
}

/// A tile of the set is linked to itself.
pub proof fn lemma_linked_self(tiles: Set<GridPosition>, a: GridPosition)
    requires
        tiles.contains(a),
    ensures
        linked(tiles, a, a),
{
    let path = seq![a];
    assert(is_walk(tiles, path));
    assert(path[0] == a && path.last() == a);
}

/// A link can be walked backwards.
pub proof fn lemma_linked_symmetric(tiles: Set<GridPosition>, a: GridPosition, b: GridPosition)
    requires
        linked(tiles, a, b),
    ensures
        linked(tiles, b, a),
{
    let path = choose|path: Seq<GridPosition>|
        #[trigger] is_walk(tiles, path) && path[0] == a && path.last() == b;
    let back = path.reverse();
    assert forall|i: int| 0 <= i < back.len() - 1 implies (#[trigger] back[i]).adjacent(
        back[i + 1],
    ) by {
        let j = path.len() - 2 - i;
        assert(path[j].adjacent(path[j + 1]));
        assert(back[i] == path[j + 1]);
        assert(back[i + 1] == path[j]);
    }
    assert(is_walk(tiles, back));
    assert(back[0] == b && back.last() == a);
}

/// Two links in a row are a link.
pub proof fn lemma_linked_transitive(
    tiles: Set<GridPosition>,
    a: GridPosition,
    b: GridPosition,
    c: GridPosition,
)
    requires
        linked(tiles, a, b),
        linked(tiles, b, c),
    ensures
        linked(tiles, a, c),
{
    let first = choose|path: Seq<GridPosition>|
        #[trigger] is_walk(tiles, path) && path[0] == a && path.last() == b;
    let second = choose|path: Seq<GridPosition>|
        #[trigger] is_walk(tiles, path) && path[0] == b && path.last() == c;
    let whole = first + second.subrange(1, second.len() as int);
    assert forall|i: int| 0 <= i < whole.len() implies tiles.contains(#[trigger] whole[i]) by {
        if i >= first.len() {
            assert(whole[i] == second[i - first.len() + 1]);
        }
    }
    assert forall|i: int| 0 <= i < whole.len() - 1 implies (#[trigger] whole[i]).adjacent(
        whole[i + 1],
    ) by {
        if i < first.len() - 1 {
            assert(first[i].adjacent(first[i + 1]));
        } else if i == first.len() - 1 {
            assert(second[0].adjacent(second[1]));
            assert(whole[i] == first.last());
            assert(whole[i + 1] == second[1]);
        } else {
            let j = i - first.len() + 1;
            assert(second[j].adjacent(second[j + 1]));
            assert(whole[i] == second[j]);
            assert(whole[i + 1] == second[j + 1]);
        }
    }
    assert(is_walk(tiles, whole));
    assert(whole[0] == a);
    if second.len() == 1 {
        assert(whole.last() == first.last());
    } else {
        assert(whole.last() == second.last());
    }
}

/// A link grows by one step to a neighbour in the set.
pub proof fn lemma_linked_step(
    tiles: Set<GridPosition>,
    a: GridPosition,
    b: GridPosition,
    c: GridPosition,
)
    requires
        linked(tiles, a, b),
        tiles.contains(c),
        b.adjacent(c),
    ensures
        linked(tiles, a, c),
{
    let hop = seq![b, c];
    assert(is_walk(tiles, hop)) by {
        let path = choose|path: Seq<GridPosition>|
            #[trigger] is_walk(tiles, path) && path[0] == a && path.last() == b;
        assert(tiles.contains(path[path.len() - 1]));
    }
    assert(hop[0] == b && hop.last() == c);
    lemma_linked_transitive(tiles, a, b, c);
}

/// A link inside a set is a link inside every larger set.
pub proof fn lemma_linked_in_superset(
    part: Set<GridPosition>,
    tiles: Set<GridPosition>,
    a: GridPosition,
    b: GridPosition,
)
    requires
        part.subset_of(tiles),
        linked(part, a, b),
    ensures
        linked(tiles, a, b),
{
    let path = choose|path: Seq<GridPosition>|
        #[trigger] is_walk(part, path) && path[0] == a && path.last() == b;
    assert(is_walk(tiles, path));
}

/// A walk that starts inside a closed part never leaves it.
pub proof fn lemma_walk_stays_in_closed_part(
    tiles: Set<GridPosition>,
    part: Set<GridPosition>,
    path: Seq<GridPosition>,
    upto: int,
)
    requires
        is_closed_in(tiles, part),
        is_walk(tiles, path),
        part.contains(path[0]),
        0 <= upto < path.len(),
    ensures
        part.contains(path[upto]),
    decreases upto,
{
    if upto > 0 {
        lemma_walk_stays_in_closed_part(tiles, part, path, upto - 1);
        assert(path[upto - 1].adjacent(path[upto - 1 + 1]));
        assert(tiles.contains(path[upto]));
    }
}

/// What is linked to a tile of a closed part belongs to the part.
pub proof fn lemma_linked_stays_in_closed_part(
    tiles: Set<GridPosition>,
    part: Set<GridPosition>,
    a: GridPosition,
    b: GridPosition,
)
    requires
        is_closed_in(tiles, part),
        part.contains(a),
        linked(tiles, a, b),
    ensures
        part.contains(b),
{
    let path = choose|path: Seq<GridPosition>|
        #[trigger] is_walk(tiles, path) && path[0] == a && path.last() == b;
    lemma_walk_stays_in_closed_part(tiles, part, path, path.len() - 1);
}

/// Two connected pieces of one set that share a tile are the same piece.
pub proof fn lemma_components_meet_only_when_equal(
    tiles: Set<GridPosition>,
    first: Set<GridPosition>,
    second: Set<GridPosition>,
    shared: GridPosition,
)
    requires
        is_component(tiles, first),
        is_component(tiles, second),
        first.contains(shared),
        second.contains(shared),
    ensures
        first == second,
{
    assert forall|t: GridPosition| first.contains(t) implies second.contains(t) by {
        assert(linked(first, shared, t));
        lemma_linked_in_superset(first, tiles, shared, t);
        lemma_linked_stays_in_closed_part(tiles, second, shared, t);
    }
    assert forall|t: GridPosition| second.contains(t) implies first.contains(t) by {
        assert(linked(second, shared, t));
        lemma_linked_in_superset(second, tiles, shared, t);
        lemma_linked_stays_in_closed_part(tiles, first, shared, t);
    }
    assert(first =~= second);
}

/// A set whose tiles are all linked to one of them is connected.
pub proof fn lemma_connected_through_hub(tiles: Set<GridPosition>, hub: GridPosition)
    requires
        forall|t: GridPosition| tiles.contains(t) ==> #[trigger] linked(tiles, hub, t),
    ensures
        is_connected(tiles),
{
    assert forall|a: GridPosition, b: GridPosition|
        tiles.contains(a) && tiles.contains(b) implies #[trigger] linked(tiles, a, b) by {
        assert(linked(tiles, hub, a));
        assert(linked(tiles, hub, b));
        lemma_linked_symmetric(tiles, hub, a);
        lemma_linked_transitive(tiles, a, hub, b);
    }
}

} // verus!
