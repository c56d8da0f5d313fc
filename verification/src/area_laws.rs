//! What holds of areas after they are brought up to date.

use crate::area::Area;
use crate::connectivity::{is_connected, lemma_components_meet_only_when_equal};
use crate::geometry::GridPosition;
use crate::tile::GroundMap;
use crate::unify::{apart, claimed_tiles, covered, is_partition, is_piece_at, AreaMarker};
use bevy::ecs::entity::Entity;
use vstd::prelude::*;

verus! {

/// After areas are brought up to date, every claimed tile lies in exactly
/// one of them: one piece holds it, and no other does.
pub proof fn lemma_partition_covers_once(
    whole: Set<GridPosition>,
    parts: Seq<Set<GridPosition>>,
    tile: GridPosition,
) -> (index: int)
    requires
        is_partition(whole, parts),
        whole.contains(tile),
    ensures
        0 <= index < parts.len(),
        parts[index].contains(tile),
        forall|j: int| 0 <= j < parts.len() && j != index ==> !(#[trigger] parts[j]).contains(tile),
{
    assert(covered(parts, tile));
    let index = choose|i: int| 0 <= i < parts.len() && (#[trigger] parts[i]).contains(tile);
    assert forall|j: int| 0 <= j < parts.len() && j != index implies !(#[trigger] parts[j]).contains(
        tile,
    ) by {
        assert(apart(parts, index, j));
    }
    index
}

/// After areas are brought up to date, none of them falls apart: each piece
/// has a tile and is connected.
pub proof fn lemma_pieces_hold_together(
    whole: Set<GridPosition>,
    parts: Seq<Set<GridPosition>>,
    index: int,
)
    requires
        is_partition(whole, parts),
        0 <= index < parts.len(),
    ensures
        is_connected(parts[index]),
        !parts[index].is_empty(),
        parts[index].subset_of(whole),
{
    assert(is_piece_at(whole, parts, index));
    let t = choose|t: GridPosition| parts[index].contains(t);
    assert(parts[index].contains(t));
}

/// Each piece of one split is a piece of every other split of the same set.
pub proof fn lemma_piece_found_again(
    whole: Set<GridPosition>,
    first: Seq<Set<GridPosition>>,
    second: Seq<Set<GridPosition>>,
    index: int,
) -> (twin: int)
    requires
        is_partition(whole, first),
        is_partition(whole, second),
        0 <= index < first.len(),
    ensures
        0 <= twin < second.len(),
        second[twin] == first[index],
{
    assert(is_piece_at(whole, first, index));
    let t = choose|t: GridPosition| first[index].contains(t);
    assert(whole.contains(t));
    assert(covered(second, t));
    let twin = choose|j: int| 0 <= j < second.len() && (#[trigger] second[j]).contains(t);
    assert(is_piece_at(whole, second, twin));
    lemma_components_meet_only_when_equal(whole, first[index], second[twin], t);
    twin
}

/// A set of tiles has only one split into connected pieces: two splits hold
/// the same pieces, whatever their order.
pub proof fn lemma_partition_unique(
    whole: Set<GridPosition>,
    first: Seq<Set<GridPosition>>,
    second: Seq<Set<GridPosition>>,
)
    requires
        is_partition(whole, first),
        is_partition(whole, second),
    ensures
        first.to_set() == second.to_set(),
{
    assert forall|piece: Set<GridPosition>|
        first.to_set().contains(piece) <==> second.to_set().contains(piece) by {
        if first.contains(piece) {
            let i = choose|i: int| 0 <= i < first.len() && first[i] == piece;
            let j = lemma_piece_found_again(whole, first, second, i);
            assert(second[j] == piece);
        }
        if second.contains(piece) {
            let i = choose|i: int| 0 <= i < second.len() && second[i] == piece;
            let j = lemma_piece_found_again(whole, second, first, i);
            assert(first[j] == piece);
        }
    }
    assert(first.to_set() =~= second.to_set());
}

/// Bringing areas up to date a second time, over the same ground, changes
/// nothing. Where the areas are the pieces that the first time left, they
/// claim the same tiles again, and every split of those tiles holds the
/// same pieces.
pub proof fn lemma_update_areas_idempotent<M: AreaMarker>(
    marker: M,
    ground: GroundMap,
    before: Seq<(Entity, &Area)>,
    after: Seq<(Entity, &Area)>,
    again: Seq<Set<GridPosition>>,
)
    requires
        is_partition(
            claimed_tiles(marker, ground, before),
            Seq::new(after.len(), |i: int| after[i].1@),
        ),
        is_partition(claimed_tiles(marker, ground, after), again),
    ensures
        claimed_tiles(marker, ground, after) == claimed_tiles(marker, ground, before),
        again.to_set() == Seq::new(after.len(), |i: int| after[i].1@).to_set(),
{
    let first = claimed_tiles(marker, ground, before);
    let second = claimed_tiles(marker, ground, after);
    let pieces = Seq::new(after.len(), |i: int| after[i].1@);
    assert forall|t: GridPosition| first.contains(t) <==> second.contains(t) by {
        if first.contains(t) {
            assert(covered(pieces, t));
            let i = choose|i: int| 0 <= i < pieces.len() && (#[trigger] pieces[i]).contains(t);
            assert(after[i].1@.contains(t));
        }
        if second.contains(t) {
            let i = choose|i: int| 0 <= i < after.len() && (#[trigger] after[i]).1@.contains(t);
            assert(is_piece_at(first, pieces, i));
            assert(pieces[i].contains(t));
        }
    }
    assert(first =~= second);
    lemma_partition_unique(first, again, pieces);
}

} // verus!
