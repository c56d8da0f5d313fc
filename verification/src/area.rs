//! Areas: sets of tiles that belong together, with their bounding boxes.

use crate::connectivity::{
    is_closed_in, is_component, is_connected, lemma_connected_through_hub,
    lemma_linked_in_superset, lemma_linked_self, lemma_linked_stays_in_closed_part,
    lemma_linked_step, linked,
};
use crate::geometry::{lemma_neighbors_are_the_adjacent, GridPosition};
use crate::grid_box::{lemma_floor_seq, GridBox};
use crate::tile_set::{held_tiles, TileSet};
use itertools::Itertools;
use std::collections::VecDeque;
use vstd::prelude::*;

verus! {

/// The coordinate of a tile along x or along y.
pub open spec fn coordinate(tile: GridPosition, along_x: bool) -> int {
    if along_x {
        tile.x as int
    } else {
        tile.y as int
    }
}

/// True when `v` is the smallest coordinate that a tile of the set has on
/// the axis.
pub open spec fn is_lowest(tiles: Set<GridPosition>, along_x: bool, v: int) -> bool {
    &&& exists|t: GridPosition| tiles.contains(t) && #[trigger] coordinate(t, along_x) == v
    &&& forall|t: GridPosition| tiles.contains(t) ==> v <= #[trigger] coordinate(t, along_x)
}

/// True when `v` is the largest coordinate that a tile of the set has on
/// the axis.
pub open spec fn is_highest(tiles: Set<GridPosition>, along_x: bool, v: int) -> bool {
    &&& exists|t: GridPosition| tiles.contains(t) && #[trigger] coordinate(t, along_x) == v
    &&& forall|t: GridPosition| tiles.contains(t) ==> v >= #[trigger] coordinate(t, along_x)
}

/// The smallest coordinate of the set on the axis.
pub open spec fn lowest(tiles: Set<GridPosition>, along_x: bool) -> int {
    choose|v: int| is_lowest(tiles, along_x, v)
}

/// The largest coordinate of the set on the axis.
pub open spec fn highest(tiles: Set<GridPosition>, along_x: bool) -> int {
    choose|v: int| is_highest(tiles, along_x, v)
}

/// The bounding box of a set of tiles: from the smallest x and y on level
/// zero to one past the largest x and y on level one. The box of the empty
/// set starts at the origin.
pub open spec fn bounds_of(tiles: Set<GridPosition>) -> GridBox {
    if tiles.is_empty() {
        GridBox::spanning(GridPosition::at(0, 0, 0), GridPosition::at(1, 1, 1))
    } else {
        GridBox::spanning(
            GridPosition::at(lowest(tiles, true), lowest(tiles, false), 0),
            GridPosition::at(highest(tiles, true) + 1, highest(tiles, false) + 1, 1),
        )
    }
}

/// True when the set is finite and each of its tiles has its four
/// neighbours on the grid.
pub open spec fn tiles_wf(tiles: Set<GridPosition>) -> bool {
    &&& tiles.finite()
    &&& forall|t: GridPosition| tiles.contains(t) ==> #[trigger] t.has_neighbors()
}

/// Only one number is the smallest coordinate, and only one the largest.
pub proof fn lemma_extremes_unique(tiles: Set<GridPosition>, along_x: bool, lo: int, hi: int)
    requires
        is_lowest(tiles, along_x, lo),
        is_highest(tiles, along_x, hi),
    ensures
        lowest(tiles, along_x) == lo,
        highest(tiles, along_x) == hi,
        lo <= hi,
{
    let l = lowest(tiles, along_x);
    let h = highest(tiles, along_x);
    assert(is_lowest(tiles, along_x, l));
    assert(is_highest(tiles, along_x, h));
    let tl = choose|t: GridPosition| tiles.contains(t) && #[trigger] coordinate(t, along_x) == l;
    let tlo = choose|t: GridPosition| tiles.contains(t) && #[trigger] coordinate(t, along_x) == lo;
    let th = choose|t: GridPosition| tiles.contains(t) && #[trigger] coordinate(t, along_x) == h;
    let thi = choose|t: GridPosition| tiles.contains(t) && #[trigger] coordinate(t, along_x) == hi;
    assert(l <= coordinate(tlo, along_x));
    assert(lo <= coordinate(tl, along_x));
    assert(h >= coordinate(thi, along_x));
    assert(hi >= coordinate(th, along_x));
    assert(lo <= coordinate(thi, along_x));
}

/// Calls `itertools::Itertools::minmax` on the values and turns the result
/// into an `Option` with `MinMaxResult::into_option`: nothing for no values,
/// else the smallest and the largest of them.
#[verifier::external_body]
pub(crate) fn min_max(values: &Vec<i32>) -> (ends: Option<(i32, i32)>)
    ensures
        ends.is_none() <==> values@.len() == 0,
        ends matches Some((lo, hi)) ==> values@.contains(lo) && values@.contains(hi),
        ends matches Some((lo, hi)) ==> forall|i: int|
            0 <= i < values@.len() ==> lo <= #[trigger] values@[i] <= hi,
{
    values.iter().copied().minmax().into_option()
}

/// Computes the bounding box of a set of tiles.
fn bounds_for(tiles: &TileSet) -> (bounds: GridBox)
    requires
        tiles_wf(tiles@),
    ensures
        bounds == bounds_of(tiles@),
{
    let keys = tiles.to_vec();
    let mut xs: Vec<i32> = Vec::new();
    let mut ys: Vec<i32> = Vec::new();
    let mut i: usize = 0;
    while i < keys.len()
        invariant
            i <= keys.len(),
            xs@.len() == i,
            ys@.len() == i,
            forall|k: int| 0 <= k < i ==> #[trigger] xs@[k] == keys@[k].x,
            forall|k: int| 0 <= k < i ==> #[trigger] ys@[k] == keys@[k].y,
        decreases keys.len() - i,
    {
        xs.push(keys[i].x);
        ys.push(keys[i].y);
        i += 1;
    }
    let x_ends = min_max(&xs);
    let y_ends = min_max(&ys);
    let (smallest_x, largest_x) = match x_ends {
        Some(ends) => ends,
        None => (0, 0),
    };
    let (smallest_y, largest_y) = match y_ends {
        Some(ends) => ends,
        None => (0, 0),
    };
    proof {
        let held = tiles@;
        assert(forall|k: int| 0 <= k < keys@.len() ==> held.contains(#[trigger] keys@[k]));
        if keys@.len() == 0 {
            assert(held =~= Set::empty());
        } else {
            assert(held.contains(keys@[0]));
            assert(!held.is_empty());
            let ix = choose|k: int| 0 <= k < xs@.len() && xs@[k] == smallest_x;
            let jx = choose|k: int| 0 <= k < xs@.len() && xs@[k] == largest_x;
            let iy = choose|k: int| 0 <= k < ys@.len() && ys@[k] == smallest_y;
            let jy = choose|k: int| 0 <= k < ys@.len() && ys@[k] == largest_y;
            assert(coordinate(keys@[ix], true) == smallest_x);
            assert(coordinate(keys@[jx], true) == largest_x);
            assert(coordinate(keys@[iy], false) == smallest_y);
            assert(coordinate(keys@[jy], false) == largest_y);
            assert forall|t: GridPosition| held.contains(t) implies smallest_x
                <= #[trigger] coordinate(t, true) <= largest_x by {
                let k = choose|k: int| 0 <= k < keys@.len() && keys@[k] == t;
                assert(xs@[k] == t.x);
            }
            assert forall|t: GridPosition| held.contains(t) implies smallest_y
                <= #[trigger] coordinate(t, false) <= largest_y by {
                let k = choose|k: int| 0 <= k < keys@.len() && keys@[k] == t;
                assert(ys@[k] == t.y);
            }
            assert(is_lowest(held, true, smallest_x as int));
            assert(is_highest(held, true, largest_x as int));
            assert(is_lowest(held, false, smallest_y as int));
            assert(is_highest(held, false, largest_y as int));
            lemma_extremes_unique(held, true, smallest_x as int, largest_x as int);
            lemma_extremes_unique(held, false, smallest_y as int, largest_y as int);
            assert(keys@[jx].has_neighbors());
            assert(keys@[jy].has_neighbors());
        }
    }
    GridBox::from_corners(
        GridPosition { x: smallest_x, y: smallest_y, z: 0 },
        GridPosition { x: largest_x + 1, y: largest_y + 1, z: 1 },
    )
}

/// A set of tiles that marks a region of the ground, with the box around
/// it.
pub struct Area {
    tiles: TileSet,
    aabb: GridBox,
}

impl View for Area {
    type V = Set<GridPosition>;

    closed spec fn view(&self) -> Set<GridPosition> {
        held_tiles(self.tiles)
    }
}

impl Area {
    /// The box that the area keeps around its tiles.
    pub closed spec fn aabb(self) -> GridBox {
        self.aabb
    }

    /// True when the area is in order: its tiles are finitely many, each
    /// with its neighbours on the grid, and its box is the bounding box of
    /// its tiles.
    pub open spec fn wf(self) -> bool {
        &&& tiles_wf(self@)
        &&& self.aabb() == bounds_of(self@)
    }

    /// An area is always in order.
    #[verifier::type_invariant]
    pub open spec fn in_order(self) -> bool {
        self.wf()
    }

    /// The area of the given tiles.
    pub(crate) fn from_tiles(tiles: TileSet) -> (area: Area)
        requires
            tiles_wf(tiles@),
        ensures
            area@ == tiles@,
            area.wf(),
    {
        let aabb = bounds_for(&tiles);
        Area { tiles, aabb }
    }

    /// The area that covers the rectangle between two corners, on level
    /// zero whatever the levels of the corners.
    pub fn from_rect(first_corner: GridPosition, second_corner: GridPosition) -> (area: Area)
        requires
            first_corner.has_neighbors(),
            second_corner.has_neighbors(),
            (crate::line::distance(first_corner.x as int, second_corner.x as int) + 1) * (
            crate::line::distance(first_corner.y as int, second_corner.y as int) + 1)
                <= usize::MAX,
        ensures
            area.wf(),
            forall|p: GridPosition|
                area@.contains(p) <==> GridBox::spanning(
                    GridPosition::at(first_corner.x as int, first_corner.y as int, 0),
                    GridPosition::at(second_corner.x as int, second_corner.y as int, 0),
                ).on_floor(p),
    {
        let flat = GridBox::from_corners(
            GridPosition { x: first_corner.x, y: first_corner.y, z: 0 },
            GridPosition { x: second_corner.x, y: second_corner.y, z: 0 },
        );
        let floor = flat.floor_positions();
        let mut tiles = TileSet::new();
        let mut i: usize = 0;
        while i < floor.len()
            invariant
                i <= floor.len(),
                flat.wf(),
                floor@ == flat.floor_seq(),
                tiles@ == floor@.subrange(0, i as int).to_set(),
            decreases floor.len() - i,
        {
            let _ = tiles.insert(floor[i]);
            proof {
                let before = floor@.subrange(0, i as int);
                let after = floor@.subrange(0, i + 1);
                assert(after =~= before.push(floor@[i as int]));
                assert(after.to_set() =~= before.to_set().insert(floor@[i as int])) by {
                    assert forall|p: GridPosition|
                        after.to_set().contains(p) <==> before.to_set().insert(
                            floor@[i as int],
                        ).contains(p) by {
                        if after.contains(p) {
                            let k = choose|k: int| 0 <= k < after.len() && after[k] == p;
                            if k < i {
                                assert(before[k] == p);
                            }
                        }
                        if before.contains(p) {
                            let k = choose|k: int| 0 <= k < before.len() && before[k] == p;
                            assert(after[k] == p);
                        }
                        assert(after[i as int] == floor@[i as int]);
                    }
                }
            }
            i += 1;
        }
        proof {
            assert(floor@.subrange(0, floor@.len() as int) =~= floor@);
            vstd::seq_lib::seq_to_set_is_finite(floor@);
            assert forall|p: GridPosition| tiles@.contains(p) <==> flat.on_floor(p) by {
                lemma_floor_seq(flat, p);
            }
            assert forall|p: GridPosition| tiles@.contains(p) implies #[trigger] p.has_neighbors() by {
                assert(flat.on_floor(p));
            }
        }
        Area::from_tiles(tiles)
    }

    /// Computes the box around the tiles anew. The box of an area follows
    /// its tiles at every change, so this leaves the area as it is.
    pub fn recompute_bounds(&mut self)
        ensures
            *final(self) == *old(self),
            final(self).wf(),
    {
        proof {
            use_type_invariant(&*self);
        }
        self.aabb = bounds_for(&self.tiles);
    }

    /// The box around the tiles.
    pub fn bounding_box(&self) -> (bounds: GridBox)
        ensures
            bounds == self.aabb(),
    {
        self.aabb
    }

    /// Whether the area has no tiles.
    pub fn is_empty(&self) -> (empty: bool)
        ensures
            empty == self@.is_empty(),
    {
        let count = self.tiles.len();
        proof {
            use_type_invariant(self);
            if count == 0 {
                self@.lemma_len0_is_empty();
            }
        }
        count == 0
    }

    /// The number of tiles.
    pub fn size(&self) -> (count: usize)
        ensures
            count == self@.len(),
    {
        self.tiles.len()
    }

    /// Whether the tile belongs to the area.
    pub fn contains(&self, position: &GridPosition) -> (held: bool)
        ensures
            held == self@.contains(*position),
    {
        self.tiles.contains(position)
    }

    /// The tiles of the area, each once, in no particular order.
    pub fn tiles_iter(&self) -> (tiles: Vec<GridPosition>)
        ensures
            tiles@.no_duplicates(),
            tiles@.to_set() == self@,
    {
        self.tiles.to_vec()
    }
}

impl Area {
    /// Whether the area falls apart: an area does so when it has no tiles,
    /// or when some tile cannot be reached from another over neighbouring
    /// tiles of the area.
    pub fn is_discontinuous(&self) -> (broken: bool)
        ensures
            broken == (self@.is_empty() || !is_connected(self@)),
    {
        proof {
            use_type_invariant(self);
        }
        if self.is_empty() {
            return true;
        }
        let mut candidates = self.tiles.duplicate();
        match candidates.any() {
            None => true,
            Some(seed) => {
                let part = extract_component(&mut candidates, seed);
                let left = candidates.len();
                proof {
                    let whole = self@;
                    if left == 0 {
                        candidates@.lemma_len0_is_empty();
                        assert forall|t: GridPosition| whole.contains(t) implies part@.contains(
                            t,
                        ) by {
                            if !part@.contains(t) {
                                assert(whole.difference(part@).contains(t));
                                assert(candidates@.contains(t));
                            }
                        }
                        assert(whole =~= part@);
                    } else {
                        assert(candidates@.len() != 0);
                        let t = candidates@.choose();
                        assert(candidates@.contains(t)) by {
                            if candidates@.is_empty() {
                            }
                        }
                        if is_connected(whole) {
                            assert(linked(whole, seed, t));
                            lemma_linked_stays_in_closed_part(whole, part@, seed, t);
                        }
                    }
                }
                left != 0
            },
        }
    }

    /// Whether every position on the floor of the box is a tile of the
    /// area.
    pub fn fits(&self, aabb: &GridBox) -> (inside: bool)
        ensures
            inside == (forall|p: GridPosition| aabb.on_floor(p) ==> self@.contains(p)),
    {
        let far_x: i64 = aabb.corner.x as i64 + aabb.extents.x as i64;
        let far_y: i64 = aabb.corner.y as i64 + aabb.extents.y as i64;
        let last_x: i64 = if far_x > i32::MAX as i64 {
            i32::MAX as i64
        } else {
            far_x
        };
        let last_y: i64 = if far_y > i32::MAX as i64 {
            i32::MAX as i64
        } else {
            far_y
        };
        let mut x: i64 = aabb.corner.x as i64;
        while x <= last_x
            invariant
                far_x == aabb.corner.x + aabb.extents.x,
                far_y == aabb.corner.y + aabb.extents.y,
                last_x == (if far_x > i32::MAX { i32::MAX as int } else { far_x as int }),
                last_y == (if far_y > i32::MAX { i32::MAX as int } else { far_y as int }),
                aabb.corner.x <= x <= last_x + 1,
                forall|p: GridPosition| aabb.on_floor(p) && p.x < x ==> self@.contains(p),
            decreases last_x + 1 - x,
        {
            let mut y: i64 = aabb.corner.y as i64;
            while y <= last_y
                invariant
                    far_x == aabb.corner.x + aabb.extents.x,
                    far_y == aabb.corner.y + aabb.extents.y,
                    last_x == (if far_x > i32::MAX { i32::MAX as int } else { far_x as int }),
                    last_y == (if far_y > i32::MAX { i32::MAX as int } else { far_y as int }),
                    aabb.corner.x <= x <= last_x,
                    aabb.corner.y <= y <= last_y + 1,
                    forall|p: GridPosition| aabb.on_floor(p) && p.x < x ==> self@.contains(p),
                    forall|p: GridPosition|
                        aabb.on_floor(p) && p.x == x && p.y < y ==> self@.contains(p),
                decreases last_y + 1 - y,
            {
                let position = GridPosition { x: x as i32, y: y as i32, z: aabb.corner.z };
                if !self.tiles.contains(&position) {
                    assert(aabb.on_floor(position));
                    return false;
                }
                y = y + 1;
            }
            x = x + 1;
        }
        true
    }

    /// Keeps the tiles for which the predicate holds, drops the others and
    /// computes the box anew.
    pub fn retain_tiles<F: Fn(&GridPosition) -> bool>(&mut self, predicate: F)
        requires
            forall|p: GridPosition| #[trigger] predicate.requires((&p,)),
        ensures
            final(self).wf(),
            final(self)@.subset_of(old(self)@),
            forall|p: GridPosition|
                final(self)@.contains(p) ==> #[trigger] predicate.ensures((&p,), true),
            forall|p: GridPosition|
                old(self)@.contains(p) && !final(self)@.contains(p) ==> #[trigger] predicate.ensures(
                    (&p,),
                    false,
                ),
    {
        proof {
            use_type_invariant(&*self);
        }
        let ghost before = self@;
        // The tiles are taken out while they are sifted, so that the area
        // is whole at every moment.
        let mut taken = Area::from_tiles(TileSet::new());
        core::mem::swap(self, &mut taken);
        let Area { tiles, aabb: _ } = taken;
        let mut tiles = tiles;
        let keys = tiles.to_vec();
        let mut i: usize = 0;
        while i < keys.len()
            invariant
                i <= keys.len(),
                keys@.no_duplicates(),
                keys@.to_set() == before,
                tiles_wf(before),
                tiles@.finite(),
                tiles@.subset_of(before),
                forall|p: GridPosition| #[trigger] predicate.requires((&p,)),
                forall|k: int| i <= k < keys@.len() ==> tiles@.contains(#[trigger] keys@[k]),
                forall|k: int|
                    0 <= k < i && tiles@.contains(keys@[k]) ==> #[trigger] predicate.ensures(
                        (&keys@[k],),
                        true,
                    ),
                forall|k: int|
                    0 <= k < i && !tiles@.contains(keys@[k]) ==> #[trigger] predicate.ensures(
                        (&keys@[k],),
                        false,
                    ),
            decreases keys.len() - i,
        {
            let keep = predicate(&keys[i]);
            if !keep {
                let _ = tiles.remove(&keys[i]);
            }
            i += 1;
        }
        proof {
            assert forall|p: GridPosition| tiles@.contains(p) implies #[trigger] predicate.ensures(
                (&p,),
                true,
            ) by {
                assert(keys@.to_set().contains(p));
                let k = choose|k: int| 0 <= k < keys@.len() && keys@[k] == p;
                assert(predicate.ensures((&keys@[k],), true));
            }
            assert forall|p: GridPosition|
                before.contains(p) && !tiles@.contains(p) implies #[trigger] predicate.ensures(
                (&p,),
                false,
            ) by {
                assert(keys@.to_set().contains(p));
                let k = choose|k: int| 0 <= k < keys@.len() && keys@[k] == p;
                assert(predicate.ensures((&keys@[k],), false));
            }
        }
        *self = Area::from_tiles(tiles);
    }
}

impl Clone for Area {
    fn clone(&self) -> (copy: Area)
        ensures
            copy@ == self@,
            copy.aabb() == self.aabb(),
    {
        proof {
            use_type_invariant(self);
        }
        Area { tiles: self.tiles.duplicate(), aabb: self.aabb }
    }
}

impl Default for Area {
    fn default() -> (area: Area)
        ensures
            area@ == Set::<GridPosition>::empty(),
            area.wf(),
    {
        Area::from_tiles(TileSet::new())
    }
}

/// Takes the connected piece around `seed` out of `remaining`: a flood fill
/// that starts at the seed and spreads to neighbours as long as it finds
/// tiles of the set.
pub(crate) fn extract_component(remaining: &mut TileSet, seed: GridPosition) -> (part: TileSet)
    requires
        tiles_wf(old(remaining)@),
        old(remaining)@.contains(seed),
    ensures
        part@.contains(seed),
        is_component(old(remaining)@, part@),
        final(remaining)@ == old(remaining)@.difference(part@),
        tiles_wf(part@),
        tiles_wf(final(remaining)@),
{
    let ghost whole = remaining@;
    let mut part = TileSet::new();
    let mut queue: VecDeque<GridPosition> = VecDeque::new();
    let _ = remaining.remove(&seed);
    let _ = part.insert(seed);
    queue.push_back(seed);
    let ghost mut done: Set<GridPosition> = Set::empty();
    proof {
        lemma_linked_self(part@, seed);
        assert(remaining@ =~= whole.difference(part@));
        assert(queue@[0] == seed);
    }
    while queue.len() > 0
        invariant
            tiles_wf(whole),
            part@.finite(),
            remaining@.finite(),
            part@.subset_of(whole),
            part@.contains(seed),
            remaining@ == whole.difference(part@),
            forall|t: GridPosition| part@.contains(t) ==> #[trigger] linked(part@, seed, t),
            forall|i: int| 0 <= i < queue@.len() ==> part@.contains(#[trigger] queue@[i]),
            forall|t: GridPosition|
                #[trigger] part@.contains(t) ==> done.contains(t) || queue@.contains(t),
            done.subset_of(part@),
            forall|a: GridPosition, b: GridPosition|
                #![trigger done.contains(a), whole.contains(b)]
                done.contains(a) && whole.contains(b) && a.adjacent(b) ==> part@.contains(b),
        decreases remaining@.len() + queue@.len(),
    {
        let ghost total = remaining@.len() + queue@.len();
        let ghost waiting = queue@;
        let current = queue.pop_front().unwrap();
        proof {
            assert(current == waiting[0]);
            assert forall|t: GridPosition| #[trigger] part@.contains(t) implies done.contains(t)
                || queue@.contains(t) || t == current by {
                if waiting.contains(t) {
                    let k = choose|k: int| 0 <= k < waiting.len() && waiting[k] == t;
                    if k > 0 {
                        assert(queue@[k - 1] == t);
                    }
                }
            }
            assert forall|k: int| 0 <= k < queue@.len() implies part@.contains(
                #[trigger] queue@[k],
            ) by {
                assert(queue@[k] == waiting[k + 1]);
            }
        }
        assert(part@.contains(current));
        assert(whole.contains(current));
        let around = current.neighbors();
        let mut i: usize = 0;
        while i < 4
            invariant
                i <= 4,
                tiles_wf(whole),
                part@.finite(),
                remaining@.finite(),
                part@.subset_of(whole),
                part@.contains(seed),
                part@.contains(current),
                current.has_neighbors(),
                around@ == current.neighbor_seq(),
                remaining@ == whole.difference(part@),
                forall|t: GridPosition| part@.contains(t) ==> #[trigger] linked(part@, seed, t),
                forall|k: int| 0 <= k < queue@.len() ==> part@.contains(#[trigger] queue@[k]),
                forall|t: GridPosition|
                    #[trigger] part@.contains(t) ==> done.contains(t) || queue@.contains(t) || t
                        == current,
                done.subset_of(part@),
                forall|a: GridPosition, b: GridPosition|
                    #![trigger done.contains(a), whole.contains(b)]
                    done.contains(a) && whole.contains(b) && a.adjacent(b) ==> part@.contains(b),
                forall|k: int|
                    0 <= k < i && whole.contains(#[trigger] around@[k]) ==> part@.contains(
                        around@[k],
                    ),
                remaining@.len() + queue@.len() + 1 == total,
            decreases 4 - i,
        {
            let neighbor = around[i];
            if remaining.contains(&neighbor) {
                let ghost part_before = part@;
                let ghost queue_before = queue@;
                let _ = remaining.remove(&neighbor);
                let _ = part.insert(neighbor);
                queue.push_back(neighbor);
                proof {
                    lemma_neighbors_are_the_adjacent(current, neighbor);
                    assert(current.neighbor_seq()[i as int] == neighbor);
                    assert(current.adjacent(neighbor));
                    assert(remaining@ =~= whole.difference(part@));
                    assert forall|t: GridPosition| part@.contains(t) implies #[trigger] linked(
                        part@,
                        seed,
                        t,
                    ) by {
                        assert(linked(part_before, seed, current));
                        lemma_linked_in_superset(part_before, part@, seed, current);
                        if t == neighbor {
                            lemma_linked_step(part@, seed, current, neighbor);
                        } else {
                            assert(linked(part_before, seed, t));
                            lemma_linked_in_superset(part_before, part@, seed, t);
                        }
                    }
                    assert(queue@ == queue_before.push(neighbor));
                    assert forall|k: int| 0 <= k < queue@.len() implies part@.contains(
                        #[trigger] queue@[k],
                    ) by {
                        if k < queue_before.len() {
                            assert(queue@[k] == queue_before[k]);
                        }
                    }
                    assert forall|t: GridPosition| #[trigger] part@.contains(t) implies done.contains(
                        t,
                    ) || queue@.contains(t) || t == current by {
                        if t == neighbor {
                            assert(queue@[queue_before.len() as int] == neighbor);
                        } else if queue_before.contains(t) {
                            let k = choose|k: int| 0 <= k < queue_before.len() && queue_before[k] == t;
                            assert(queue@[k] == t);
                        }
                    }
                }
            }
            i += 1;
        }
        proof {
            let done_before = done;
            done = done.insert(current);
            assert forall|a: GridPosition, b: GridPosition|
                #![trigger done.contains(a), whole.contains(b)]
                done.contains(a) && whole.contains(b) && a.adjacent(b) implies part@.contains(b) by {
                if a == current {
                    lemma_neighbors_are_the_adjacent(current, b);
                    let k = choose|k: int| 0 <= k < around@.len() && around@[k] == b;
                    assert(whole.contains(around@[k]));
                } else {
                    assert(done_before.contains(a));
                }
            }
        }
    }
    proof {
        assert(queue@.len() == 0);
        assert forall|t: GridPosition| part@.contains(t) implies done.contains(t) by {
            if queue@.contains(t) {
            }
        }
        assert(is_closed_in(whole, part@));
        lemma_connected_through_hub(part@, seed);
    }
    part
}


} // verus!
