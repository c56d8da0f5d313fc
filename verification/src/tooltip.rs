//! Names and descriptions for the things that tooltips explain.

use crate::buildable::{BuildMenu, Buildable};
use crate::pitch::PitchType;
use crate::tile::GroundKind;
use vstd::prelude::*;
use vstd::string::StringExecFns;

verus! {

/// Anything that a tooltip can be made from.
pub trait Tooltipable {
    /// The name, which heads the tooltip.
    spec fn title(&self) -> Seq<char>;

    /// The description, which is the body of the tooltip.
    spec fn body(&self) -> Seq<char>;

    fn name(&self) -> (text: &'static str)
        ensures
            text@ == self.title(),
    ;

    fn description(&self) -> (text: &'static str)
        ensures
            text@ == self.body(),
    ;
}

/// What is shown when the pointer rests on something.
pub struct Tooltip {
    /// The headline.
    pub title: String,
    /// The longer text below it.
    pub body: String,
}

impl Tooltip {
    /// The tooltip of a thing: its name over its description.
    pub fn from<T: Tooltipable>(value: &T) -> (tooltip: Tooltip)
        ensures
            tooltip.title@ == value.title(),
            tooltip.body@ == value.body(),
    {
        Tooltip {
            title: String::from_str(value.name()),
            body: String::from_str(value.description()),
        }
    }
}

impl Tooltipable for GroundKind {
    open spec fn title(&self) -> Seq<char> {
        match self {
            GroundKind::Grass => "Grass"@,
            GroundKind::Pathway => "Pathway"@,
            GroundKind::PoolPath => "Pool Path"@,
            GroundKind::Pitch => "Pitch"@,
        }
    }

    open spec fn body(&self) -> Seq<char> {
        match self {
            GroundKind::Grass => "Grass is the default ground. Everyone can walk here, but not very fast."@,
            GroundKind::Pathway => "Pathways increase walking speed and allow vehicles to traverse the site."@,
            GroundKind::PoolPath => "Pool paths are similar to pathways, but they instead serve as the floor material of all pools. You can therefore easily identify a pool area by this flooring."@,
            GroundKind::Pitch => "Pitch ground looks like grass, but behaves very differently, since it defines where a pitch is situated."@,
        }
    }

    fn name(&self) -> (text: &'static str) {
        match self {
            GroundKind::Grass => "Grass",
            GroundKind::Pathway => "Pathway",
            GroundKind::PoolPath => "Pool Path",
            GroundKind::Pitch => "Pitch",
        }
    }

    fn description(&self) -> (text: &'static str) {
        match self {
            GroundKind::Grass => "Grass is the default ground. Everyone can walk here, but not very fast.",
            GroundKind::Pathway => "Pathways increase walking speed and allow vehicles to traverse the site.",
            GroundKind::PoolPath => "Pool paths are similar to pathways, but they instead serve as the floor material of all pools. You can therefore easily identify a pool area by this flooring.",
            GroundKind::Pitch => "Pitch ground looks like grass, but behaves very differently, since it defines where a pitch is situated.",
        }
    }
}

impl Tooltipable for PitchType {
    open spec fn title(&self) -> Seq<char> {
        match self {
            PitchType::TentPitch => "Tent Pitch"@,
            PitchType::PermanentTent => "Permanent Tent"@,
            PitchType::CaravanPitch => "Caravan Pitch"@,
            PitchType::MobileHome => "Mobile Home"@,
            PitchType::Cottage => "Cottage"@,
        }
    }

    open spec fn body(&self) -> Seq<char> {
        match self {
            PitchType::TentPitch => "A basic tent pitch, suitable for a small tent and two people. Tent pitches are not more than demarcated patches of grass, and take almost no effort to maintain. Only the hardy tent-camping visitors will use tent pitches, however. Tent pitches also take up a relatively large area in comparison to the amount of people that can stay there."@,
            PitchType::PermanentTent => "A permanently constructed tent for five campers. Due to its construction with wooden flooring under a cloth roof, this tent does provide better comfort than a bare tent pitch, though its spacial requirement is only a little less than the large tent pitch’s. It requires some more upkeep, of course, but it doesn’t need water or electricity. You can, however, connect those resources anyways, which will mildly improve visitor satisfaction."@,
            PitchType::CaravanPitch => "A pitch for two or three campers to park their caravans. As opposed to tent pitches, caravan pitches need a permanent water and electricity supply for the vehicles. In turn, less hardy campers with their caravans will show up to these pitches. As with tent pitches, caravan pitches provide ample space for the few visitors."@,
            PitchType::MobileHome => "A mobile home, the most basic form of permanent housing for four visitors. Mobile homes are parked semi-permanently, need water and electricity, and they provide much more comfort than even a caravan. In addition, mobile homes are parked on a rather small pitch. However, their upkeep is significantly more resource-intensive than the simple pitches, since campers no longer bring their own housing."@,
            PitchType::Cottage => "A basic cottage for up to six visitors. Cottages are not more than semi-permanent wooden huts set up on a relatively small pitch, and they can accommodate a whole group of people pretty comfortably. Cottages require water and electricity, and will need to be maintained for visitor satisfaction."@,
        }
    }

    fn name(&self) -> (text: &'static str) {
        match self {
            PitchType::TentPitch => "Tent Pitch",
            PitchType::PermanentTent => "Permanent Tent",
            PitchType::CaravanPitch => "Caravan Pitch",
            PitchType::MobileHome => "Mobile Home",
            PitchType::Cottage => "Cottage",
        }
    }

    fn description(&self) -> (text: &'static str) {
        match self {
            PitchType::TentPitch => "A basic tent pitch, suitable for a small tent and two people. Tent pitches are not more than demarcated patches of grass, and take almost no effort to maintain. Only the hardy tent-camping visitors will use tent pitches, however. Tent pitches also take up a relatively large area in comparison to the amount of people that can stay there.",
            PitchType::PermanentTent => "A permanently constructed tent for five campers. Due to its construction with wooden flooring under a cloth roof, this tent does provide better comfort than a bare tent pitch, though its spacial requirement is only a little less than the large tent pitch’s. It requires some more upkeep, of course, but it doesn’t need water or electricity. You can, however, connect those resources anyways, which will mildly improve visitor satisfaction.",
            PitchType::CaravanPitch => "A pitch for two or three campers to park their caravans. As opposed to tent pitches, caravan pitches need a permanent water and electricity supply for the vehicles. In turn, less hardy campers with their caravans will show up to these pitches. As with tent pitches, caravan pitches provide ample space for the few visitors.",
            PitchType::MobileHome => "A mobile home, the most basic form of permanent housing for four visitors. Mobile homes are parked semi-permanently, need water and electricity, and they provide much more comfort than even a caravan. In addition, mobile homes are parked on a rather small pitch. However, their upkeep is significantly more resource-intensive than the simple pitches, since campers no longer bring their own housing.",
            PitchType::Cottage => "A basic cottage for up to six visitors. Cottages are not more than semi-permanent wooden huts set up on a relatively small pitch, and they can accommodate a whole group of people pretty comfortably. Cottages require water and electricity, and will need to be maintained for visitor satisfaction.",
        }
    }
}

impl Tooltipable for BuildMenu {
    open spec fn title(&self) -> Seq<char> {
        match self {
            BuildMenu::Basics => "The Basics"@,
            BuildMenu::Pitch => "Pitches"@,
            BuildMenu::Pool => "Swimming Pools"@,
        }
    }

    open spec fn body(&self) -> Seq<char> {
        match self {
            BuildMenu::Basics => "Fundamental buildings and objects."@,
            BuildMenu::Pitch => "Pitches housing visitors, such as tent pitches, caravans or mobile homes."@,
            BuildMenu::Pool => "Everything for swimming pools."@,
        }
    }

    fn name(&self) -> (text: &'static str) {
        match self {
            BuildMenu::Basics => "The Basics",
            BuildMenu::Pitch => "Pitches",
            BuildMenu::Pool => "Swimming Pools",
        }
    }

    fn description(&self) -> (text: &'static str) {
        match self {
            BuildMenu::Basics => "Fundamental buildings and objects.",
            BuildMenu::Pitch => "Pitches housing visitors, such as tent pitches, caravans or mobile homes.",
            BuildMenu::Pool => "Everything for swimming pools.",
        }
    }
}

impl Tooltipable for Buildable {
    open spec fn title(&self) -> Seq<char> {
        match self {
            Buildable::PitchType(kind) => kind.title(),
            Buildable::Pitch => "Pitch Site"@,
            Buildable::Ground(kind) => kind.title(),
            Buildable::PoolArea => "Pool Area"@,
        }
    }

    open spec fn body(&self) -> Seq<char> {
        match self {
            Buildable::PitchType(kind) => kind.body(),
            Buildable::Pitch => "Demarcate a new pitch site. The pitch will initially be empty and cannot take visitors. You have to specify the kind of pitch by building an pitch on top of this site."@,
            Buildable::Ground(kind) => kind.body(),
            Buildable::PoolArea => "Demarcate a pool area to start building a pool."@,
        }
    }

    fn name(&self) -> (text: &'static str) {
        match self {
            Buildable::PitchType(kind) => kind.name(),
            Buildable::Pitch => "Pitch Site",
            Buildable::Ground(kind) => kind.name(),
            Buildable::PoolArea => "Pool Area",
        }
    }

    fn description(&self) -> (text: &'static str) {
        match self {
            Buildable::PitchType(kind) => kind.description(),
            Buildable::Pitch => "Demarcate a new pitch site. The pitch will initially be empty and cannot take visitors. You have to specify the kind of pitch by building an pitch on top of this site.",
            Buildable::Ground(kind) => kind.description(),
            Buildable::PoolArea => "Demarcate a pool area to start building a pool.",
        }
    }
}

} // verus!
