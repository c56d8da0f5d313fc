//! Which sides of the tiles of an area lie open.

use crate::area::{tiles_wf, Area};
use crate::geometry::GridPosition;
use crate::sides::{Sides, BOTTOM_BIT, LEFT_BIT, RIGHT_BIT, TOP_BIT};
use crate::tile::{BorderKind, GroundKind, GroundMap};
use bevy::ecs::entity::Entity;
use vstd::prelude::*;

verus! {

/// The border of one tile: the tile's entity, the kind of border and the
/// sides on which it is drawn.
#[derive(Clone, Copy, Debug, PartialEq, Eq)]
pub struct TileBorder {
    pub position: GridPosition,
    pub entity: Entity,
    pub kind: BorderKind,
    pub sides: Sides,
}

/// True when the neighbour continues the area: it is a tile of the area on
/// ground of the same kind.
pub open spec fn joined(
    tiles: Set<GridPosition>,
    ground: GroundMap,
    kind: GroundKind,
    neighbor: GridPosition,
) -> bool {
    tiles.contains(neighbor) && ground.kind_at(neighbor) == Some(kind)
}

/// The bit of a side whose neighbour continues the area, and no bit
/// otherwise.
pub open spec fn shut(continues: bool, side: u8) -> u8 {
    if continues {
        side
    } else {
        0
    }
}

/// The sides of a tile that lie open: all four but those across which the
/// area continues.
pub open spec fn open_sides(
    tiles: Set<GridPosition>,
    ground: GroundMap,
    kind: GroundKind,
    position: GridPosition,
) -> Sides {
    Sides(
        0b1111u8 ^ shut(joined(tiles, ground, kind, position.shifted(-1, 0, 0)), LEFT_BIT) ^ shut(
            joined(tiles, ground, kind, position.shifted(1, 0, 0)),
            RIGHT_BIT,
        ) ^ shut(joined(tiles, ground, kind, position.shifted(0, -1, 0)), BOTTOM_BIT) ^ shut(
            joined(tiles, ground, kind, position.shifted(0, 1, 0)),
            TOP_BIT,
        ),
    )
}

/// A side lies open exactly when the area does not continue across it.
pub proof fn lemma_open_sides(
    tiles: Set<GridPosition>,
    ground: GroundMap,
    kind: GroundKind,
    position: GridPosition,
)
    ensures
        open_sides(tiles, ground, kind, position).shares(Sides(LEFT_BIT)) == !joined(
            tiles,
            ground,
            kind,
            position.shifted(-1, 0, 0),
        ),
        open_sides(tiles, ground, kind, position).shares(Sides(RIGHT_BIT)) == !joined(
            tiles,
            ground,
            kind,
            position.shifted(1, 0, 0),
        ),
        open_sides(tiles, ground, kind, position).shares(Sides(BOTTOM_BIT)) == !joined(
            tiles,
            ground,
            kind,
            position.shifted(0, -1, 0),
        ),
        open_sides(tiles, ground, kind, position).shares(Sides(TOP_BIT)) == !joined(
            tiles,
            ground,
            kind,
            position.shifted(0, 1, 0),
        ),
{
    let l = shut(joined(tiles, ground, kind, position.shifted(-1, 0, 0)), LEFT_BIT);
    let r = shut(joined(tiles, ground, kind, position.shifted(1, 0, 0)), RIGHT_BIT);
    let b = shut(joined(tiles, ground, kind, position.shifted(0, -1, 0)), BOTTOM_BIT);
    let t = shut(joined(tiles, ground, kind, position.shifted(0, 1, 0)), TOP_BIT);
    assert((l == 0 || l == 8) && (r == 0 || r == 2) && (b == 0 || b == 4) && (t == 0 || t == 1));
    assert((8u8 & (0b1111u8 ^ l ^ r ^ b ^ t) != 0) == (l == 0)) by (bit_vector)
        requires
            (l == 0 || l == 8) && (r == 0 || r == 2) && (b == 0 || b == 4) && (t == 0 || t == 1),
    ;
    assert((2u8 & (0b1111u8 ^ l ^ r ^ b ^ t) != 0) == (r == 0)) by (bit_vector)
        requires
            (l == 0 || l == 8) && (r == 0 || r == 2) && (b == 0 || b == 4) && (t == 0 || t == 1),
    ;
    assert((4u8 & (0b1111u8 ^ l ^ r ^ b ^ t) != 0) == (b == 0)) by (bit_vector)
        requires
            (l == 0 || l == 8) && (r == 0 || r == 2) && (b == 0 || b == 4) && (t == 0 || t == 1),
    ;
    assert((1u8 & (0b1111u8 ^ l ^ r ^ b ^ t) != 0) == (t == 0)) by (bit_vector)
        requires
            (l == 0 || l == 8) && (r == 0 || r == 2) && (b == 0 || b == 4) && (t == 0 || t == 1),
    ;
}

/// True when the border is the one that belongs to its tile: the tile is
/// one of the area, its ground has a border of this kind, and the sides are
/// the open ones.
pub open spec fn is_border_of(tiles: Set<GridPosition>, ground: GroundMap, border: TileBorder) -> bool {
    &&& tiles.contains(border.position)
    &&& ground@.contains_key(border.position)
    &&& ground@[border.position].0 == border.entity
    &&& ground@[border.position].1.border() == Some(border.kind)
    &&& border.sides == open_sides(tiles, ground, ground@[border.position].1, border.position)
}

impl Area {
    /// Whether the area continues on the neighbour: the neighbour is a tile
    /// of the area on ground of the given kind.
    fn continues_on(&self, ground: &GroundMap, kind: GroundKind, neighbor: &GridPosition) -> (yes:
        bool)
        ensures
            yes == joined(self@, *ground, kind, *neighbor),
    {
        if self.contains(neighbor) {
            match ground.kind_of(neighbor) {
                Some(other) => other == kind,
                None => false,
            }
        } else {
            false
        }
    }

    /// The borders of the area: for every tile whose ground has a border,
    /// the sides across which the area does not continue on ground of the
    /// same kind. The tiles come in no particular order.
    pub fn instantiate_borders(&self, ground: &GroundMap) -> (borders: Vec<TileBorder>)
        ensures
            forall|i: int|
                0 <= i < borders@.len() ==> is_border_of(self@, *ground, #[trigger] borders@[i]),
            forall|i: int, j: int|
                0 <= i < j < borders@.len() ==> (#[trigger] borders@[i]).position != (
                #[trigger] borders@[j]).position,
            forall|p: GridPosition|
                self@.contains(p) && ground@.contains_key(p) && (#[trigger] ground@[p]).1.border()
                    is Some ==> exists|i: int|
                    0 <= i < borders@.len() && (#[trigger] borders@[i]).position == p,
    {
        proof {
            use_type_invariant(self);
        }
        let keys = self.tiles_iter();
        let mut borders: Vec<TileBorder> = Vec::new();
        let ghost mut origin: Seq<int> = Seq::empty();
        let mut k: usize = 0;
        while k < keys.len()
            invariant
                k <= keys.len(),
                tiles_wf(self@),
                keys@.no_duplicates(),
                keys@.to_set() == self@,
                origin.len() == borders@.len(),
                forall|i: int|
                    0 <= i < borders@.len() ==> 0 <= #[trigger] origin[i] < k && borders@[i].position
                        == keys@[origin[i]],
                forall|i: int, j: int|
                    0 <= i < j < borders@.len() ==> #[trigger] origin[i] < #[trigger] origin[j],
                forall|i: int|
                    0 <= i < borders@.len() ==> is_border_of(self@, *ground, #[trigger] borders@[i]),
                forall|m: int|
                    0 <= m < k && ground@.contains_key(keys@[m]) && ground@[keys@[m]].1.border()
                        is Some ==> exists|i: int|
                        0 <= i < borders@.len() && #[trigger] origin[i] == m,
            decreases keys.len() - k,
        {
            let position = keys[k];
            assert(keys@.to_set().contains(keys@[k as int]));
            assert(position.has_neighbors());
            if let Some((entity, kind)) = ground.get(&position) {
                if let Some(border_kind) = kind.border_kind() {
                    let around = position.neighbors();
                    let mut bits: u8 = 0b1111;
                    if self.continues_on(ground, kind, &around[0]) {
                        bits = bits ^ LEFT_BIT;
                    }
                    if self.continues_on(ground, kind, &around[1]) {
                        bits = bits ^ RIGHT_BIT;
                    }
                    if self.continues_on(ground, kind, &around[2]) {
                        bits = bits ^ BOTTOM_BIT;
                    }
                    if self.continues_on(ground, kind, &around[3]) {
                        bits = bits ^ TOP_BIT;
                    }
                    proof {
                        let s = position.neighbor_seq();
                        assert(around@[0] == s[0] && around@[1] == s[1] && around@[2] == s[2]
                            && around@[3] == s[3]);
                        assert(forall|v: u8| v ^ 0 == v) by (bit_vector);
                    }
                    let ghost before = borders@;
                    let ghost origin_before = origin;
                    borders.push(
                        TileBorder { position, entity, kind: border_kind, sides: Sides(bits) },
                    );
                    proof {
                        origin = origin.push(k as int);
                        assert forall|m: int|
                            0 <= m < k + 1 && ground@.contains_key(keys@[m])
                                && ground@[keys@[m]].1.border() is Some implies exists|i: int|
                            0 <= i < borders@.len() && #[trigger] origin[i] == m by {
                            if m < k {
                                let i = choose|i: int|
                                    0 <= i < before.len() && #[trigger] origin_before[i] == m;
                                assert(origin[i] == m);
                            } else {
                                assert(origin[before.len() as int] == m);
                            }
                        }
                    }
                }
            }
            k += 1;
        }
        proof {
            assert forall|i: int, j: int| 0 <= i < j < borders@.len() implies (
            #[trigger] borders@[i]).position != (#[trigger] borders@[j]).position by {
                assert(origin[i] < origin[j]);
            }
            assert forall|p: GridPosition|
                self@.contains(p) && ground@.contains_key(p) && (#[trigger] ground@[p]).1.border()
                    is Some implies exists|i: int|
                0 <= i < borders@.len() && (#[trigger] borders@[i]).position == p by {
                assert(keys@.to_set().contains(p));
                let m = choose|m: int| 0 <= m < keys@.len() && keys@[m] == p;
                let i = choose|i: int| 0 <= i < borders@.len() && #[trigger] origin[i] == m;
                assert(borders@[i].position == p);
            }
        }
        borders
    }
}

} // verus!
