//! Pitches: plots for guests, and the rules by which a plot gets and loses
//! its type.

use crate::area::Area;
use crate::connectivity::is_connected;
use crate::geometry::GridPosition;
use crate::grid_box::{BoundingBox, GridBox};
use crate::metric::Metric;
use crate::tile::{GroundKind, GroundMap};
use crate::unify::{collect_claimed, AreaMarker, ImmutableArea};
use bevy::ecs::entity::Entity;
use vstd::prelude::*;

verus! {

/// The types of pitch.
#[derive(Clone, Copy, Debug, PartialEq, Eq, Structural)]
pub enum PitchType {
    TentPitch,
    PermanentTent,
    CaravanPitch,
    MobileHome,
    Cottage,
}

/// How comfortable a stay is, from 0 to 10.
pub type Comfort = Metric<0, 10>;

/// How many pitches of the same type share a plot.
pub type AccommodationMultiplicity = Metric<1, 2>;

impl PitchType {
    /// The space that the building of a pitch of this type takes.
    pub open spec fn footprint(self) -> BoundingBox {
        match self {
            PitchType::CaravanPitch | PitchType::TentPitch => BoundingBox { x: 1, y: 1, z: 1 },
            PitchType::PermanentTent => BoundingBox { x: 2, y: 2, z: 2 },
            PitchType::MobileHome => BoundingBox { x: 1, y: 2, z: 2 },
            PitchType::Cottage => BoundingBox { x: 2, y: 3, z: 3 },
        }
    }

    /// The number of tiles that a plot for one pitch of this type needs.
    pub open spec fn needed_tiles(self) -> nat {
        match self {
            PitchType::CaravanPitch | PitchType::TentPitch => 25,
            PitchType::PermanentTent => 16,
            PitchType::MobileHome => 8,
            PitchType::Cottage => 12,
        }
    }

    /// The comfort of a stay on a pitch of this type.
    pub open spec fn comfort_level(self) -> u64 {
        match self {
            PitchType::TentPitch => 1,
            PitchType::PermanentTent => 4,
            PitchType::CaravanPitch => 3,
            PitchType::MobileHome => 5,
            PitchType::Cottage => 6,
        }
    }

    /// True when a pitch of this type has a building of its own.
    pub open spec fn has_building(self) -> bool {
        match self {
            PitchType::CaravanPitch | PitchType::TentPitch => false,
            PitchType::PermanentTent | PitchType::MobileHome | PitchType::Cottage => true,
        }
    }

    pub fn size(&self) -> (extents: BoundingBox)
        ensures
            extents == self.footprint(),
    {
        match self {
            PitchType::CaravanPitch | PitchType::TentPitch => BoundingBox::fixed::<1, 1, 1>(),
            PitchType::PermanentTent => BoundingBox::fixed::<2, 2, 2>(),
            PitchType::MobileHome => BoundingBox::fixed::<1, 2, 2>(),
            PitchType::Cottage => BoundingBox::fixed::<2, 3, 3>(),
        }
    }

    pub fn required_area(&self) -> (tiles: usize)
        ensures
            tiles == self.needed_tiles(),
    {
        match self {
            PitchType::CaravanPitch | PitchType::TentPitch => 5 * 5,
            PitchType::PermanentTent => 4 * 4,
            PitchType::MobileHome => 2 * 4,
            PitchType::Cottage => 3 * 4,
        }
    }

    pub fn comfort(&self) -> (comfort: Comfort)
        ensures
            comfort.value() == self.comfort_level(),
    {
        let level: u64 = match self {
            PitchType::TentPitch => 1,
            PitchType::PermanentTent => 4,
            PitchType::CaravanPitch => 3,
            PitchType::MobileHome => 5,
            PitchType::Cottage => 6,
        };
        match Comfort::new(level) {
            Ok(comfort) => comfort,
            Err(_) => Comfort::min_value(),
        }
    }

    /// Whether a pitch of this type is a building, so that a building has
    /// to be put up when the pitch is made.
    pub fn is_real_building(&self) -> (building: bool)
        ensures
            building == self.has_building(),
    {
        match self {
            PitchType::CaravanPitch | PitchType::TentPitch => false,
            PitchType::PermanentTent | PitchType::MobileHome | PitchType::Cottage => true,
        }
    }
}

/// A plot for guests. Without a kind it is marked out but takes no guests.
#[derive(Clone, Copy, Debug)]
pub struct Pitch {
    /// The type of pitch, once one is assigned.
    pub kind: Option<PitchType>,
    /// How many pitches of the type share the plot.
    pub multiplicity: AccommodationMultiplicity,
}

impl Pitch {
    /// The number of tiles that the plot has to have: nothing while no type
    /// is assigned, else what the type needs, once for each pitch.
    pub open spec fn needed_tiles(self) -> nat {
        match self.kind {
            None => 0,
            Some(kind) => (kind.needed_tiles() * self.multiplicity.value()) as nat,
        }
    }

    /// True when no type is assigned and the plot stands for one pitch.
    pub open spec fn is_unassigned(self) -> bool {
        self.kind is None && self.multiplicity.value() == 1
    }

    /// The kind of ground that pitches lie on.
    pub const GROUND_TYPE: GroundKind = GroundKind::Pitch;

    pub fn required_area(&self) -> (tiles: usize)
        ensures
            tiles == self.needed_tiles(),
    {
        match self.kind {
            None => 0,
            Some(kind) => {
                let count: u64 = self.multiplicity.get();
                assert(kind.needed_tiles() * count <= 50) by (nonlinear_arith)
                    requires
                        kind.needed_tiles() <= 25,
                        1 <= count <= 2,
                ;
                kind.required_area() * (count as usize)
            },
        }
    }
}

impl Default for Pitch {
    fn default() -> (pitch: Pitch)
        ensures
            pitch.is_unassigned(),
    {
        Pitch { kind: None, multiplicity: AccommodationMultiplicity::default() }
    }
}

impl AreaMarker for Pitch {
    open spec fn allows(&self, kind: GroundKind) -> bool {
        kind == GroundKind::Pitch
    }

    fn is_allowed_ground_type(&self, kind: GroundKind) -> (allowed: bool) {
        kind == GroundKind::Pitch
    }
}

/// Why something could not be built.
#[derive(Clone, Copy, Debug, PartialEq, Eq, Structural)]
pub enum BuildError {
    /// The target tile lies in no pitch.
    NoAccommodationHere,
    /// The footprint of the building does not fit into the pitch.
    NoSpace,
    /// The pitch has fewer tiles than the type needs.
    PitchTooSmall { required: usize, actual: usize },
}

/// What a successful build of a pitch type asks of the engine.
pub struct PitchBuild {
    /// The place of the pitch in the list that was searched.
    pub owner: usize,
    /// The entity of the pitch.
    pub entity: Entity,
    /// The pitch with its type assigned.
    pub pitch: Pitch,
    /// The box of the building to put up, where the type has one.
    pub building: Option<GridBox>,
    /// The area of the pitch, settled from now on.
    pub area: ImmutableArea,
}

/// The box of a building of the given type around a position: the footprint
/// of the type, one level high.
pub open spec fn building_box(kind: PitchType, position: GridPosition) -> GridBox {
    GridBox::centered(
        position,
        BoundingBox { x: kind.footprint().x, y: kind.footprint().y, z: 1 },
    )
}

/// True when every floor position of the box is a tile of the set.
pub open spec fn box_fits(tiles: Set<GridPosition>, aabb: GridBox) -> bool {
    forall|p: GridPosition| aabb.on_floor(p) ==> tiles.contains(p)
}

/// True when the pitch at `index` is the first in the list whose area holds
/// the position.
pub open spec fn is_first_owner(
    pitches: Seq<(Entity, &Area, Pitch)>,
    position: GridPosition,
    index: int,
) -> bool {
    &&& 0 <= index < pitches.len()
    &&& pitches[index].1@.contains(position)
    &&& forall|k: int| 0 <= k < index ==> !(#[trigger] pitches[k]).1@.contains(position)
}

/// What the build of a pitch type at a position comes to, given the pitch
/// that owns the position: the errors in the order in which they are
/// looked for, or nothing where the build goes through.
pub open spec fn build_refusal(kind: PitchType, position: GridPosition, area: Set<GridPosition>)
    -> Option<BuildError> {
    if !box_fits(area, building_box(kind, position)) {
        Some(BuildError::NoSpace)
    } else if area.len() < kind.needed_tiles() {
        Some(
            BuildError::PitchTooSmall {
                required: kind.needed_tiles() as usize,
                actual: area.len() as usize,
            },
        )
    } else {
        None
    }
}

/// Finds the first pitch whose area holds the position.
pub fn find_owner(pitches: &Vec<(Entity, &Area, Pitch)>, position: GridPosition) -> (owner: Option<
    usize,
>)
    ensures
        match owner {
            Some(index) => is_first_owner(pitches@, position, index as int),
            None => forall|k: int|
                0 <= k < pitches@.len() ==> !(#[trigger] pitches@[k]).1@.contains(position),
        },
{
    let mut i: usize = 0;
    while i < pitches.len()
        invariant
            i <= pitches.len(),
            forall|k: int| 0 <= k < i ==> !(#[trigger] pitches@[k]).1@.contains(position),
        decreases pitches.len() - i,
    {
        if pitches[i].1.contains(&position) {
            return Some(i);
        }
        i += 1;
    }
    None
}

/// Gives the pitch under a position its type.
///
/// The pitch is the first in the list whose area holds the position; where
/// none does, there is nothing to build on. The building of the type,
/// centred on the position, has to fit into the area, and the area has to
/// have the tiles that the type needs. Where all holds, the pitch gets the
/// type and its area is settled; where not, nothing changes.
pub fn perform_pitch_type_build(
    kind: PitchType,
    start_position: GridPosition,
    pitches: &Vec<(Entity, &Area, Pitch)>,
) -> (outcome: Result<PitchBuild, BuildError>)
    ensures
        (forall|k: int| 0 <= k < pitches@.len() ==> !(#[trigger] pitches@[k]).1@.contains(
            start_position,
        )) ==> outcome == Err::<PitchBuild, BuildError>(BuildError::NoAccommodationHere),
        forall|index: int|
            is_first_owner(pitches@, start_position, index) ==> match build_refusal(
                kind,
                start_position,
                pitches@[index].1@,
            ) {
                Some(error) => outcome == Err::<PitchBuild, BuildError>(error),
                None => outcome matches Ok(build) && build.owner == index && build.entity
                    == pitches@[index].0 && build.pitch.kind == Some(kind)
                    && build.pitch.multiplicity == pitches@[index].2.multiplicity && build.building
                    == (if kind.has_building() {
                    Some(building_box(kind, start_position))
                } else {
                    None
                }) && build.area.0@ == pitches@[index].1@ && build.area.0.aabb()
                    == pitches@[index].1.aabb(),
            },
{
    let owner = match find_owner(pitches, start_position) {
        Some(owner) => owner,
        None => {
            return Err(BuildError::NoAccommodationHere);
        },
    };
    proof {
        assert forall|index: int| is_first_owner(pitches@, start_position, index) implies index
            == owner by {
            if index < owner {
                assert(!pitches@[index].1@.contains(start_position));
            }
            if owner < index {
                assert(!pitches@[owner as int].1@.contains(start_position));
            }
        }
    }
    let (entity, area, pitch) = pitches[owner];
    proof {
        use_type_invariant(area);
    }
    assert(area@.contains(start_position));
    assert(start_position.has_neighbors());
    let pitch_box = GridBox::around(start_position, kind.size().flat());
    assert(pitch_box == building_box(kind, start_position));
    if !area.fits(&pitch_box) {
        return Err(BuildError::NoSpace);
    }
    let actual = area.size();
    if actual < kind.required_area() {
        return Err(BuildError::PitchTooSmall { required: kind.required_area(), actual });
    }
    let building = if kind.is_real_building() {
        Some(pitch_box)
    } else {
        None
    };
    Ok(
        PitchBuild {
            owner,
            entity,
            pitch: Pitch { kind: Some(kind), multiplicity: pitch.multiplicity },
            building,
            area: ImmutableArea(area.clone()),
        },
    )
}

/// A pitch with its type assigned: its entity, its data, its settled area
/// and the boxes of the buildings that stand on it.
pub struct BuiltPitch {
    pub entity: Entity,
    pub pitch: Pitch,
    pub area: ImmutableArea,
    pub buildings: Vec<GridBox>,
}

/// The tiles that a settled pitch keeps when the ground has changed: those
/// that still lie on pitch ground and that no other area claims.
pub open spec fn kept_tiles(
    tiles: Set<GridPosition>,
    ground: GroundMap,
    foreign: Set<GridPosition>,
) -> Set<GridPosition> {
    tiles.filter(
        |t: GridPosition| ground.kind_at(t) == Some(GroundKind::Pitch) && !foreign.contains(t),
    )
}

/// True when a settled pitch cannot stay as it is: it has lost all tiles,
/// or fell apart, or one of its buildings no longer stands on it, or it has
/// fewer tiles than it needs.
pub open spec fn must_revert(
    tiles: Set<GridPosition>,
    buildings: Seq<GridBox>,
    needed: nat,
) -> bool {
    ||| tiles.is_empty()
    ||| !is_connected(tiles)
    ||| exists|i: int| 0 <= i < buildings.len() && !box_fits(tiles, #[trigger] buildings[i])
    ||| tiles.len() < needed
}

impl BuiltPitch {
    /// Checks the pitch against the ground. The area keeps the tiles that
    /// still lie on pitch ground and that are not `foreign`. Where the pitch
    /// cannot stay as it is, it loses its type and stands for one pitch
    /// again; the result says so.
    pub fn revalidate(&mut self, ground: &GroundMap, foreign: &Area) -> (reverted: bool)
        ensures
            final(self).area.0@ == kept_tiles(old(self).area.0@, *ground, foreign@),
            final(self).area.0.wf(),
            final(self).entity == old(self).entity,
            final(self).buildings == old(self).buildings,
            reverted == must_revert(
                final(self).area.0@,
                old(self).buildings@,
                old(self).pitch.needed_tiles(),
            ),
            reverted ==> final(self).pitch.is_unassigned(),
            !reverted ==> final(self).pitch == old(self).pitch,
    {
        let ghost before = self.area.0@;
        let keep = |tile: &GridPosition| -> (keep: bool)
            ensures
                keep == (ground.kind_at(*tile) == Some(GroundKind::Pitch) && !foreign@.contains(
                    *tile,
                )),
            {
                let on_pitch = match ground.kind_of(tile) {
                    Some(kind) => kind == GroundKind::Pitch,
                    None => false,
                };
                on_pitch && !foreign.contains(tile)
            };
        self.area.0.retain_tiles(keep);
        proof {
            let kept = kept_tiles(before, *ground, foreign@);
            assert forall|p: GridPosition| self.area.0@.contains(p) <==> kept.contains(p) by {
                if self.area.0@.contains(p) {
                    assert(keep.ensures((&p,), true));
                }
                if before.contains(p) && !self.area.0@.contains(p) {
                    assert(keep.ensures((&p,), false));
                }
            }
            assert(self.area.0@ =~= kept);
        }
        let mut should_destroy = false;
        if self.area.0.is_empty() || self.area.0.is_discontinuous() {
            should_destroy = true;
        } else {
            let mut i: usize = 0;
            while i < self.buildings.len()
                invariant
                    i <= self.buildings.len(),
                    should_destroy == (exists|k: int|
                        0 <= k < i && !box_fits(self.area.0@, #[trigger] self.buildings@[k])),
                decreases self.buildings.len() - i,
            {
                if !self.area.0.fits(&self.buildings[i]) {
                    should_destroy = true;
                }
                i += 1;
            }
            if self.area.0.size() < self.pitch.required_area() {
                should_destroy = true;
            }
        }
        if should_destroy {
            self.pitch = Pitch::default();
        }
        should_destroy
    }
}

/// The entities of the first `n` pitches that could not stay as they were.
pub open spec fn reverted_entities(before: Seq<BuiltPitch>, after: Seq<BuiltPitch>, n: int) -> Seq<
    Entity,
>
    decreases n,
{
    if n <= 0 {
        Seq::empty()
    } else if must_revert(
        after[n - 1].area.0@,
        before[n - 1].buildings@,
        before[n - 1].pitch.needed_tiles(),
    ) {
        reverted_entities(before, after, n - 1).push(before[n - 1].entity)
    } else {
        reverted_entities(before, after, n - 1)
    }
}

/// The tiles of pitch ground that the given areas claim.
pub open spec fn foreign_tiles(ground: GroundMap, other_areas: Seq<(Entity, &Area)>) -> Set<
    GridPosition,
> {
    Set::new(
        |t: GridPosition|
            ground.kind_at(t) == Some(GroundKind::Pitch) && exists|i: int|
                0 <= i < other_areas.len() && (#[trigger] other_areas[i]).1@.contains(t),
    )
}

/// Checks every settled pitch against the changed ground.
///
/// Tiles of pitch ground that other areas claim count as taken from the
/// settled pitches. Each pitch keeps what is left of its tiles; the pitches
/// that cannot stay as they are lose their type. The result names them, in
/// order: their entities get a plain area again and lose their buildings,
/// and the areas have to be brought up to date.
pub fn update_built_pitches(
    pitches: &mut Vec<BuiltPitch>,
    other_areas: &Vec<(Entity, &Area)>,
    ground: &GroundMap,
) -> (reverted: Vec<Entity>)
    ensures
        final(pitches)@.len() == old(pitches)@.len(),
        forall|i: int|
            0 <= i < old(pitches)@.len() ==> pitch_checked(
                #[trigger] old(pitches)@[i],
                final(pitches)@[i],
                *ground,
                foreign_tiles(*ground, other_areas@),
            ),
        reverted@ == reverted_entities(
            old(pitches)@,
            final(pitches)@,
            old(pitches)@.len() as int,
        ),
{
    let marker = Pitch::default();
    let foreign = Area::from_tiles(collect_claimed(&marker, ground, other_areas));
    assert(foreign@ =~= foreign_tiles(*ground, other_areas@));
    let mut reverted: Vec<Entity> = Vec::new();
    let mut i: usize = 0;
    while i < pitches.len()
        invariant
            i <= pitches.len(),
            pitches@.len() == old(pitches)@.len(),
            foreign@ == foreign_tiles(*ground, other_areas@),
            forall|k: int| i <= k < pitches@.len() ==> #[trigger] pitches@[k] == old(pitches)@[k],
            forall|k: int|
                0 <= k < i ==> pitch_checked(
                    #[trigger] old(pitches)@[k],
                    pitches@[k],
                    *ground,
                    foreign_tiles(*ground, other_areas@),
                ),
            reverted@ == reverted_entities(old(pitches)@, pitches@, i as int),
        decreases pitches.len() - i,
    {
        let ghost before = pitches@;
        let entity = pitches[i].entity;
        let site = &mut pitches[i];
        let gone = site.revalidate(ground, &foreign);
        proof {
            assert(pitches@.len() == before.len());
            assert forall|k: int| 0 <= k < pitches@.len() && k != i implies pitches@[k]
                == before[k] by {}
            lemma_reverted_prefix(old(pitches)@, before, pitches@, i as int);
        }
        if gone {
            reverted.push(entity);
        }
        i += 1;
    }
    reverted
}

/// What the first `n` pitches came to does not depend on the pitches after
/// them.
proof fn lemma_reverted_prefix(
    start: Seq<BuiltPitch>,
    before: Seq<BuiltPitch>,
    after: Seq<BuiltPitch>,
    n: int,
)
    requires
        0 <= n <= before.len(),
        before.len() == after.len(),
        forall|k: int| 0 <= k < n ==> before[k] == after[k],
    ensures
        reverted_entities(start, before, n) == reverted_entities(start, after, n),
    decreases n,
{
    if n > 0 {
        lemma_reverted_prefix(start, before, after, n - 1);
    }
}

/// True when `after` is what checking `before` against the ground leaves.
pub open spec fn pitch_checked(
    before: BuiltPitch,
    after: BuiltPitch,
    ground: GroundMap,
    foreign: Set<GridPosition>,
) -> bool {
    &&& after.area.0@ == kept_tiles(before.area.0@, ground, foreign)
    &&& after.area.0.wf()
    &&& after.entity == before.entity
    &&& after.buildings == before.buildings
    &&& if must_revert(after.area.0@, before.buildings@, before.pitch.needed_tiles()) {
        after.pitch.is_unassigned()
    } else {
        after.pitch == before.pitch
    }
}

} // verus!
