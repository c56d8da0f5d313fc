//! Bringing the areas of one kind up to date with the ground.
//!
//! The tiles that the areas of a kind claim, as far as the ground under them
//! still allows it, are split anew into connected pieces. Each piece is one
//! area afterwards.

use crate::area::{extract_component, tiles_wf, Area};
use crate::connectivity::{is_closed_in, is_component};
use crate::geometry::GridPosition;
use crate::tile::{GroundKind, GroundMap};
use crate::tile_set::TileSet;
use bevy::ecs::entity::Entity;
use itertools::EitherOrBoth;
use itertools::Itertools;
use vstd::prelude::*;
use vstd::std_specs::convert::FromSpecImpl;

verus! {

/// What tells the areas of one kind from those of another: the ground that
/// their tiles need.
pub trait AreaMarker {
    /// True when a tile on ground of this kind can belong to an area of the
    /// marked kind.
    spec fn allows(&self, kind: GroundKind) -> bool;

    fn is_allowed_ground_type(&self, kind: GroundKind) -> (allowed: bool)
        ensures
            allowed == self.allows(kind),
    ;
}

/// Marker of pool areas.
#[derive(Clone, Copy, Debug, PartialEq, Eq, Structural)]
pub struct Pool;

impl AreaMarker for Pool {
    open spec fn allows(&self, kind: GroundKind) -> bool {
        kind == GroundKind::PoolPath
    }

    fn is_allowed_ground_type(&self, kind: GroundKind) -> (allowed: bool) {
        kind == GroundKind::PoolPath
    }
}

impl Default for Pool {
    fn default() -> (marker: Pool)
        ensures
            marker == Pool,
    {
        Pool
    }
}

/// An area whose outline is settled: it no longer takes part when areas are
/// brought up to date.
pub struct ImmutableArea(pub Area);

impl ImmutableArea {
    /// The area inside, free to change again.
    pub fn into_area(self) -> (area: Area)
        ensures
            area == self.0,
    {
        self.0
    }
}

impl From<ImmutableArea> for Area {
    fn from(value: ImmutableArea) -> (area: Area) {
        value.0
    }
}

impl FromSpecImpl<ImmutableArea> for Area {
    open spec fn obeys_from_spec() -> bool {
        true
    }

    open spec fn from_spec(value: ImmutableArea) -> Area {
        value.0
    }
}

/// One step that brings the entities of the engine in line with the new
/// areas.
pub enum AreaChange {
    /// The entity keeps its place and takes the new area.
    Replace(Entity, Area),
    /// A new entity is needed for the area.
    Create(Area),
    /// The entity's tiles are gone: it leaves.
    Remove(Entity),
}

/// The outcome of bringing areas up to date.
pub struct AreaUpdate {
    /// One step for each new area and each old entity, in order: as long as
    /// both last, an old entity takes a new area.
    pub changes: Vec<AreaChange>,
    /// How many areas there are afterwards. The first so many steps carry
    /// them.
    pub remaining: usize,
}

/// True when the piece at index `i` is a connected piece of `whole`.
pub open spec fn is_piece_at(whole: Set<GridPosition>, parts: Seq<Set<GridPosition>>, i: int) -> bool {
    is_component(whole, parts[i])
}

/// True when the pieces at two indices share no tile.
pub open spec fn apart(parts: Seq<Set<GridPosition>>, i: int, j: int) -> bool {
    parts[i].disjoint(parts[j])
}

/// True when one of the pieces holds the tile.
pub open spec fn covered(parts: Seq<Set<GridPosition>>, tile: GridPosition) -> bool {
    exists|i: int| 0 <= i < parts.len() && (#[trigger] parts[i]).contains(tile)
}

/// True when `parts` are the connected pieces of `whole`: each is one, no
/// two share a tile, and together they hold every tile.
pub open spec fn is_partition(whole: Set<GridPosition>, parts: Seq<Set<GridPosition>>) -> bool {
    &&& forall|i: int| 0 <= i < parts.len() ==> #[trigger] is_piece_at(whole, parts, i)
    &&& forall|i: int, j: int|
        0 <= i < parts.len() && 0 <= j < parts.len() && i != j ==> #[trigger] apart(parts, i, j)
    &&& forall|t: GridPosition| #[trigger] whole.contains(t) ==> covered(parts, t)
}

/// The tile sets of a list of areas.
pub open spec fn tile_sets(areas: Seq<Area>) -> Seq<Set<GridPosition>> {
    Seq::new(areas.len(), |i: int| areas[i]@)
}

/// True when a tile lies on ground that the marker allows.
pub open spec fn eligible<M: AreaMarker>(marker: M, ground: GroundMap, tile: GridPosition) -> bool {
    ground.kind_at(tile) matches Some(kind) && marker.allows(kind)
}

/// The tiles that the given areas claim and that lie on ground that the
/// marker allows.
pub open spec fn claimed_tiles<M: AreaMarker>(
    marker: M,
    ground: GroundMap,
    areas: Seq<(Entity, &Area)>,
) -> Set<GridPosition> {
    Set::new(
        |t: GridPosition|
            eligible(marker, ground, t) && exists|i: int|
                0 <= i < areas.len() && (#[trigger] areas[i]).1@.contains(t),
    )
}

/// Splits a set of tiles into its connected pieces, one area each, by
/// filling from some remaining tile until none remains.
pub(crate) fn split_into_areas(tiles: TileSet) -> (areas: Vec<Area>)
    requires
        tiles_wf(tiles@),
    ensures
        is_partition(tiles@, tile_sets(areas@)),
        forall|i: int| 0 <= i < areas@.len() ==> (#[trigger] areas@[i]).wf(),
{
    let ghost whole = tiles@;
    let mut remaining = tiles;
    let mut areas: Vec<Area> = Vec::new();
    loop
        invariant
            tiles_wf(whole),
            tiles_wf(remaining@),
            remaining@.subset_of(whole),
            forall|i: int| 0 <= i < areas@.len() ==> (#[trigger] areas@[i]).wf(),
            is_partition(whole.difference(remaining@), tile_sets(areas@)),
            forall|i: int|
                0 <= i < areas@.len() ==> #[trigger] is_piece_at(whole, tile_sets(areas@), i),
        ensures
            remaining@ == Set::<GridPosition>::empty(),
        decreases remaining@.len(),
    {
        let seed = match remaining.any() {
            Some(seed) => seed,
            None => {
                break;
            },
        };
        let ghost before = remaining@;
        let ghost earlier = tile_sets(areas@);
        let part = extract_component(&mut remaining, seed);
        proof {
            lemma_next_piece(whole, before, earlier, part@, seed);
        }
        let area = Area::from_tiles(part);
        let ghost old_areas = areas@;
        areas.push(area);
        proof {
            assert(tile_sets(areas@) =~= earlier.push(part@));
            assert(remaining@ =~= before.difference(part@));
            assert forall|i: int| 0 <= i < areas@.len() implies (#[trigger] areas@[i]).wf() by {
                if i < old_areas.len() {
                    assert(areas@[i] == old_areas[i]);
                }
            }
        }
    }
    proof {
        assert(whole.difference(remaining@) =~= whole);
    }
    areas
}

/// The piece that a fill takes out of what remains joins the pieces found
/// so far: together they are the pieces of all that was taken out.
proof fn lemma_next_piece(
    whole: Set<GridPosition>,
    before: Set<GridPosition>,
    earlier: Seq<Set<GridPosition>>,
    part: Set<GridPosition>,
    seed: GridPosition,
)
    requires
        tiles_wf(whole),
        tiles_wf(before),
        before.subset_of(whole),
        is_partition(whole.difference(before), earlier),
        forall|i: int| 0 <= i < earlier.len() ==> #[trigger] is_piece_at(whole, earlier, i),
        is_component(before, part),
        part.contains(seed),
    ensures
        is_partition(whole.difference(before.difference(part)), earlier.push(part)),
        forall|i: int|
            0 <= i < earlier.len() + 1 ==> #[trigger] is_piece_at(whole, earlier.push(part), i),
        before.difference(part).len() < before.len(),
        before.difference(part).subset_of(whole),
{
    let taken = whole.difference(before);
    let after = before.difference(part);
    let pieces = earlier.push(part);
    assert forall|a: GridPosition, b: GridPosition|
        #![trigger part.contains(a), whole.contains(b)]
        part.contains(a) && whole.contains(b) && a.adjacent(b) implies part.contains(b) by {
        if !before.contains(b) {
            assert(taken.contains(b));
            assert(covered(earlier, b));
            let i = choose|i: int| 0 <= i < earlier.len() && (#[trigger] earlier[i]).contains(b);
            assert(is_piece_at(whole, earlier, i));
            assert(is_piece_at(taken, earlier, i));
            crate::geometry::lemma_neighbors_are_the_adjacent(b, a);
            assert(b.adjacent(a));
            assert(whole.contains(a));
            assert(earlier[i].contains(a));
            assert(taken.contains(a));
        }
    }
    assert(is_closed_in(whole, part));
    assert(is_component(whole, part));
    let grown = whole.difference(after);
    assert forall|i: int| 0 <= i < pieces.len() implies #[trigger] is_piece_at(
        whole,
        pieces,
        i,
    ) by {
        if i < earlier.len() {
            assert(is_piece_at(whole, earlier, i));
            assert(pieces[i] == earlier[i]);
        }
    }
    assert forall|i: int| 0 <= i < pieces.len() implies #[trigger] is_piece_at(
        grown,
        pieces,
        i,
    ) by {
        assert(is_piece_at(whole, pieces, i));
        if i < earlier.len() {
            assert(is_piece_at(taken, earlier, i));
            assert(pieces[i] == earlier[i]);
            assert(pieces[i].subset_of(grown));
        } else {
            assert(pieces[i] == part);
            assert(part.subset_of(grown));
        }
        assert(is_closed_in(grown, pieces[i]));
    }
    assert forall|i: int, j: int|
        0 <= i < pieces.len() && 0 <= j < pieces.len() && i != j implies #[trigger] apart(
        pieces,
        i,
        j,
    ) by {
        if i < earlier.len() && j < earlier.len() {
            assert(apart(earlier, i, j));
            assert(pieces[i] == earlier[i] && pieces[j] == earlier[j]);
        } else if i < earlier.len() {
            assert(is_piece_at(taken, earlier, i));
            assert(pieces[i] == earlier[i] && pieces[j] == part);
        } else {
            assert(is_piece_at(taken, earlier, j));
            assert(pieces[j] == earlier[j] && pieces[i] == part);
        }
    }
    assert forall|t: GridPosition| #[trigger] grown.contains(t) implies covered(pieces, t) by {
        if taken.contains(t) {
            assert(covered(earlier, t));
            let i = choose|i: int| 0 <= i < earlier.len() && (#[trigger] earlier[i]).contains(t);
            assert(pieces[i] == earlier[i]);
            assert(pieces[i].contains(t));
        } else {
            assert(part.contains(t));
            assert(pieces[earlier.len() as int].contains(t));
        }
    }
    assert(after.insert(seed).subset_of(before));
    vstd::set_lib::lemma_len_subset(after.insert(seed), before);
    vstd::set_lib::lemma_len_subset(after, before);
}

/// The steps that pair new areas with old entities: a step for each place
/// in the longer of the two lists.
pub open spec fn paired_changes(areas: Seq<Area>, entities: Seq<Entity>) -> Seq<AreaChange> {
    Seq::new(
        if areas.len() >= entities.len() {
            areas.len()
        } else {
            entities.len()
        },
        |i: int|
            if i < areas.len() && i < entities.len() {
                AreaChange::Replace(entities[i], areas[i])
            } else if i < areas.len() {
                AreaChange::Create(areas[i])
            } else {
                AreaChange::Remove(entities[i])
            },
    )
}

/// Calls `itertools::Itertools::zip_longest` on the new areas and the old
/// entities and turns each pair into a step. As long as both lists last, the
/// pairs hold one item of each; after that they hold the items of the longer
/// list alone.
#[verifier::external_body]
fn zip_changes(areas: Vec<Area>, entities: Vec<Entity>) -> (changes: Vec<AreaChange>)
    ensures
        changes@ == paired_changes(areas@, entities@),
{
    areas.into_iter().zip_longest(entities).map(
        |pair|
            match pair {
                EitherOrBoth::Both(area, entity) => AreaChange::Replace(entity, area),
                EitherOrBoth::Left(area) => AreaChange::Create(area),
                EitherOrBoth::Right(entity) => AreaChange::Remove(entity),
            },
    ).collect()
}

/// True when one of the first `upto` areas holds the tile.
pub open spec fn claimed_by(areas: Seq<(Entity, &Area)>, upto: int, tile: GridPosition) -> bool {
    exists|i: int| 0 <= i < upto && i < areas.len() && (#[trigger] areas[i]).1@.contains(tile)
}

/// Collects the tiles that the areas claim and that still lie on ground
/// that the marker allows.
pub(crate) fn collect_claimed<M: AreaMarker>(marker: &M, ground: &GroundMap, areas: &Vec<(Entity, &Area)>) -> (
    claimed: TileSet)
    ensures
        claimed@ == claimed_tiles(*marker, *ground, areas@),
        tiles_wf(claimed@),
{
    let mut claimed = TileSet::new();
    let mut i: usize = 0;
    while i < areas.len()
        invariant
            i <= areas.len(),
            tiles_wf(claimed@),
            forall|t: GridPosition|
                #[trigger] claimed@.contains(t) <==> eligible(*marker, *ground, t) && claimed_by(
                    areas@,
                    i as int,
                    t,
                ),
        decreases areas.len() - i,
    {
        let area = areas[i].1;
        proof {
            use_type_invariant(area);
        }
        let keys = area.tiles_iter();
        let mut j: usize = 0;
        while j < keys.len()
            invariant
                i < areas.len(),
                j <= keys.len(),
                keys@.to_set() == areas@[i as int].1@,
                tiles_wf(areas@[i as int].1@),
                tiles_wf(claimed@),
                forall|t: GridPosition|
                    #[trigger] claimed@.contains(t) <==> eligible(*marker, *ground, t) && (
                    claimed_by(areas@, i as int, t) || keys@.subrange(0, j as int).contains(t)),
            decreases keys.len() - j,
        {
            let tile = keys[j];
            let allowed = match ground.kind_of(&tile) {
                Some(kind) => marker.is_allowed_ground_type(kind),
                None => false,
            };
            proof {
                assert(keys@.to_set().contains(keys@[j as int]));
                let shorter = keys@.subrange(0, j as int);
                let longer = keys@.subrange(0, j + 1);
                assert(longer =~= shorter.push(tile));
                assert forall|t: GridPosition| longer.contains(t) <==> shorter.contains(t) || t
                    == tile by {
                    if longer.contains(t) {
                        let m = choose|m: int| 0 <= m < longer.len() && longer[m] == t;
                        if m < j {
                            assert(shorter[m] == t);
                        }
                    }
                    if shorter.contains(t) {
                        let m = choose|m: int| 0 <= m < shorter.len() && shorter[m] == t;
                        assert(longer[m] == t);
                    }
                    assert(longer[j as int] == tile);
                }
            }
            if allowed {
                let _ = claimed.insert(tile);
            }
            j += 1;
        }
        proof {
            assert(keys@.subrange(0, keys@.len() as int) =~= keys@);
            assert forall|t: GridPosition|
                #[trigger] claimed@.contains(t) <==> eligible(*marker, *ground, t) && claimed_by(
                    areas@,
                    i + 1,
                    t,
                ) by {
                if claimed_by(areas@, i as int, t) {
                    let k = choose|k: int|
                        0 <= k < i && k < areas@.len() && (#[trigger] areas@[k]).1@.contains(t);
                    assert(areas@[k].1@.contains(t));
                }
                if keys@.contains(t) {
                    assert(keys@.to_set().contains(t));
                    assert(areas@[i as int].1@.contains(t));
                }
                if claimed_by(areas@, i + 1, t) {
                    let k = choose|k: int|
                        0 <= k < i + 1 && k < areas@.len() && (#[trigger] areas@[k]).1@.contains(t);
                    if k == i {
                        assert(keys@.to_set().contains(t));
                    } else {
                        assert(areas@[k].1@.contains(t));
                    }
                }
            }
        }
        i += 1;
    }
    proof {
        assert forall|t: GridPosition|
            claimed@.contains(t) <==> claimed_tiles(*marker, *ground, areas@).contains(t) by {
            if claimed_by(areas@, areas@.len() as int, t) {
                let k = choose|k: int|
                    0 <= k < areas@.len() && k < areas@.len() && (#[trigger] areas@[k]).1@.contains(t);
                assert(areas@[k].1@.contains(t));
            }
            if claimed_tiles(*marker, *ground, areas@).contains(t) {
                let k = choose|k: int| 0 <= k < areas@.len() && (#[trigger] areas@[k]).1@.contains(t);
                assert(areas@[k].1@.contains(t));
                assert(claimed_by(areas@, areas@.len() as int, t));
            }
        }
        assert(claimed@ =~= claimed_tiles(*marker, *ground, areas@));
    }
    claimed
}

/// The entities of a list of areas, in order.
pub open spec fn entities_of(areas: Seq<(Entity, &Area)>) -> Seq<Entity> {
    Seq::new(areas.len(), |i: int| areas[i].0)
}

/// True when `pieces` are what bringing the areas up to date leaves:
/// areas in order, whose tiles are the connected pieces of the claimed
/// tiles.
pub open spec fn are_pieces_of<M: AreaMarker>(
    marker: M,
    ground: GroundMap,
    areas: Seq<(Entity, &Area)>,
    pieces: Seq<Area>,
) -> bool {
    &&& is_partition(claimed_tiles(marker, ground, areas), tile_sets(pieces))
    &&& forall|i: int| 0 <= i < pieces.len() ==> (#[trigger] pieces[i]).wf()
}

/// Brings the areas of one kind up to date with the ground.
///
/// The tiles that the areas claim are kept as far as they lie on ground that
/// the marker allows, and split into connected pieces. The pieces are the
/// areas afterwards: old entities take them in order, new entities are asked
/// for where pieces are left over, and entities that are left over leave.
pub fn update_areas<M: AreaMarker>(
    marker: &M,
    ground: &GroundMap,
    areas: &Vec<(Entity, &Area)>,
) -> (update: AreaUpdate)
    ensures
        exists|pieces: Seq<Area>|
            {
                &&& #[trigger] are_pieces_of(*marker, *ground, areas@, pieces)
                &&& pieces.len() == update.remaining
                &&& update.changes@ == paired_changes(pieces, entities_of(areas@))
            },
{
    let claimed = collect_claimed(marker, ground, areas);
    let pieces = split_into_areas(claimed);
    let mut entities: Vec<Entity> = Vec::new();
    let mut i: usize = 0;
    while i < areas.len()
        invariant
            i <= areas.len(),
            entities@.len() == i,
            forall|k: int| 0 <= k < i ==> #[trigger] entities@[k] == areas@[k].0,
        decreases areas.len() - i,
    {
        entities.push(areas[i].0);
        i += 1;
    }
    let remaining = pieces.len();
    let ghost new_areas = pieces@;
    assert(entities@ =~= entities_of(areas@));
    let changes = zip_changes(pieces, entities);
    assert(are_pieces_of(*marker, *ground, areas@, new_areas));
    AreaUpdate { changes, remaining }
}


} // verus!
