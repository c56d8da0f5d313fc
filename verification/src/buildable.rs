//! Everything that can be built.

use crate::grid_box::BoundingBox;
use crate::pitch::PitchType;
use crate::tile::GroundKind;
use vstd::prelude::*;
use vstd::std_specs::convert::FromSpecImpl;

verus! {

/// All buildable objects.
#[derive(Clone, Copy, Debug, PartialEq, Eq, Structural)]
pub enum Buildable {
    /// A ground tile of some kind.
    Ground(GroundKind),
    /// The area of a pool, filled with pool path.
    PoolArea,
    /// The area of a pitch without a type.
    Pitch,
    /// The type that an existing pitch gets.
    PitchType(PitchType),
}

/// The sort of a buildable object, without what it holds.
#[derive(Clone, Copy, Debug, PartialEq, Eq, Structural)]
pub enum BuildableType {
    Ground,
    PoolArea,
    Pitch,
    PitchType,
}

/// The menus from which objects are picked for building.
#[derive(Clone, Copy, Debug, PartialEq, Eq, Structural)]
pub enum BuildMenu {
    /// Basic objects, like fences and pathways.
    Basics,
    /// Pitches for visitors.
    Pitch,
    /// All that belongs to pools.
    Pool,
}

/// How an object is placed when it is built.
#[derive(Clone, Copy, Debug, PartialEq, Eq, Structural)]
pub enum BuildMode {
    /// One object where the click began.
    Single,
    /// A straight line from where the click began to where it ended.
    Line,
    /// The rectangle with those two points as opposite corners.
    Rect,
}

impl Buildable {
    /// The sort of the object.
    pub open spec fn sort(self) -> BuildableType {
        match self {
            Buildable::Ground(_) => BuildableType::Ground,
            Buildable::PoolArea => BuildableType::PoolArea,
            Buildable::Pitch => BuildableType::Pitch,
            Buildable::PitchType(_) => BuildableType::PitchType,
        }
    }

    /// The menu that offers the object.
    pub open spec fn offered_in(self) -> BuildMenu {
        match self {
            Buildable::Ground(_) => BuildMenu::Basics,
            Buildable::PoolArea => BuildMenu::Pool,
            Buildable::Pitch | Buildable::PitchType(_) => BuildMenu::Pitch,
        }
    }

    /// The space that the object takes: one tile, but for the types of
    /// pitch, which take the footprint of their building.
    pub open spec fn footprint(self) -> BoundingBox {
        match self {
            Buildable::PitchType(kind) => kind.footprint(),
            _ => BoundingBox { x: 1, y: 1, z: 0 },
        }
    }

    /// How the object is placed: ground in lines, areas as rectangles, the
    /// types of pitch one by one.
    pub open spec fn placed_as(self) -> BuildMode {
        match self {
            Buildable::Ground(_) => BuildMode::Line,
            Buildable::Pitch | Buildable::PoolArea => BuildMode::Rect,
            Buildable::PitchType(_) => BuildMode::Single,
        }
    }

    pub fn menu(&self) -> (menu: BuildMenu)
        ensures
            menu == self.offered_in(),
    {
        match self {
            Buildable::Ground(_) => BuildMenu::Basics,
            Buildable::PoolArea => BuildMenu::Pool,
            Buildable::Pitch | Buildable::PitchType(_) => BuildMenu::Pitch,
        }
    }

    pub fn size(&self) -> (extents: BoundingBox)
        ensures
            extents == self.footprint(),
    {
        match self {
            Buildable::Ground(_) => BoundingBox { x: 1, y: 1, z: 0 },
            Buildable::Pitch | Buildable::PoolArea => BoundingBox { x: 1, y: 1, z: 0 },
            Buildable::PitchType(kind) => kind.size(),
        }
    }

    pub fn build_mode(&self) -> (mode: BuildMode)
        ensures
            mode == self.placed_as(),
    {
        match self {
            Buildable::Ground(_) => BuildMode::Line,
            Buildable::Pitch | Buildable::PoolArea => BuildMode::Rect,
            Buildable::PitchType(_) => BuildMode::Single,
        }
    }
}

impl From<Buildable> for BuildableType {
    fn from(value: Buildable) -> (sort: BuildableType) {
        match value {
            Buildable::Ground(_) => BuildableType::Ground,
            Buildable::PoolArea => BuildableType::PoolArea,
            Buildable::Pitch => BuildableType::Pitch,
            Buildable::PitchType(_) => BuildableType::PitchType,
        }
    }
}

impl FromSpecImpl<Buildable> for BuildableType {
    open spec fn obeys_from_spec() -> bool {
        true
    }

    open spec fn from_spec(value: Buildable) -> BuildableType {
        value.sort()
    }
}

/// Every buildable object, in the order of the menus.
pub open spec fn buildable_list() -> Seq<Buildable> {
    seq![
        Buildable::Ground(GroundKind::Pathway),
        Buildable::Ground(GroundKind::Grass),
        Buildable::PoolArea,
        Buildable::Pitch,
        Buildable::PitchType(PitchType::TentPitch),
        Buildable::PitchType(PitchType::CaravanPitch),
        Buildable::PitchType(PitchType::PermanentTent),
        Buildable::PitchType(PitchType::MobileHome),
        Buildable::PitchType(PitchType::Cottage),
    ]
}

/// Every buildable object, in the order of the menus.
pub fn all_buildables() -> (all: [Buildable; 9])
    ensures
        all@ == buildable_list(),
{
    let all = [
        Buildable::Ground(GroundKind::Pathway),
        Buildable::Ground(GroundKind::Grass),
        Buildable::PoolArea,
        Buildable::Pitch,
        Buildable::PitchType(PitchType::TentPitch),
        Buildable::PitchType(PitchType::CaravanPitch),
        Buildable::PitchType(PitchType::PermanentTent),
        Buildable::PitchType(PitchType::MobileHome),
        Buildable::PitchType(PitchType::Cottage),
    ];
    assert(all@ =~= buildable_list());
    all
}

} // verus!
