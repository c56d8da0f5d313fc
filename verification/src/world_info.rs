//! What the world tells about a thing when it is looked at.

use crate::area::Area;
use crate::pitch::{BuildError, Comfort, Pitch, PitchType};
use crate::text::{decimal, decimal_text};
use crate::tooltip::Tooltipable;
use vstd::prelude::*;
use vstd::string::StringExecFns;

verus! {

/// One property of a thing, with its value.
#[derive(Clone, Copy, Debug)]
pub enum WorldInfoProperty {
    /// The number of tiles of an area.
    Area(usize),
    /// The number of tiles that something needs.
    MinArea(usize),
    /// The comfort of a pitch.
    Comfort(Comfort),
    /// The type of a pitch.
    PitchType(PitchType),
    /// How many of a kind share a place.
    Multiplicity(u64),
}

impl WorldInfoProperty {
    /// The short name of the property.
    pub open spec fn label(self) -> Seq<char> {
        match self {
            WorldInfoProperty::Area(_) => "Area"@,
            WorldInfoProperty::MinArea(_) => "Minimum area"@,
            WorldInfoProperty::Comfort(_) => "Comfort"@,
            WorldInfoProperty::PitchType(_) => "Type"@,
            WorldInfoProperty::Multiplicity(_) => "Multiplicity"@,
        }
    }

    /// The value of the property as text: areas in square tiles, numbers in
    /// decimal digits, a type by its name.
    pub open spec fn value_text(self) -> Seq<char> {
        match self {
            WorldInfoProperty::Area(area) => decimal_text(area as nat) + "i²"@,
            WorldInfoProperty::MinArea(area) => decimal_text(area as nat) + "i²"@,
            WorldInfoProperty::Comfort(comfort) => decimal_text(comfort.value() as nat),
            WorldInfoProperty::PitchType(kind) => kind.title(),
            WorldInfoProperty::Multiplicity(count) => decimal_text(count as nat),
        }
    }

    pub fn property_name(&self) -> (name: String)
        ensures
            name@ == self.label(),
    {
        String::from_str(
            match self {
                WorldInfoProperty::Area(_) => "Area",
                WorldInfoProperty::MinArea(_) => "Minimum area",
                WorldInfoProperty::Comfort(_) => "Comfort",
                WorldInfoProperty::PitchType(_) => "Type",
                WorldInfoProperty::Multiplicity(_) => "Multiplicity",
            },
        )
    }

    pub fn property_value(&self) -> (value: String)
        ensures
            value@ == self.value_text(),
    {
        match self {
            WorldInfoProperty::MinArea(area) | WorldInfoProperty::Area(area) => {
                let mut text = decimal(*area as u64);
                text.append("i²");
                text
            },
            WorldInfoProperty::Comfort(comfort) => decimal(comfort.get()),
            WorldInfoProperty::PitchType(kind) => String::from_str(kind.name()),
            WorldInfoProperty::Multiplicity(count) => decimal(*count),
        }
    }
}

/// What is known of a thing: its name, its description and its properties.
pub struct WorldInfoProperties {
    pub properties: Vec<WorldInfoProperty>,
    pub name: String,
    pub description: String,
}

impl View for WorldInfoProperties {
    type V = Seq<WorldInfoProperty>;

    open spec fn view(&self) -> Seq<WorldInfoProperty> {
        self.properties@
    }
}

impl WorldInfoProperties {
    /// A name and a description without properties.
    pub fn basic(name: String, description: String) -> (info: WorldInfoProperties)
        ensures
            info@ == Seq::<WorldInfoProperty>::empty(),
            info.name == name,
            info.description == description,
    {
        WorldInfoProperties { properties: Vec::new(), name, description }
    }

    /// The properties in order.
    pub fn properties(&self) -> (list: &Vec<WorldInfoProperty>)
        ensures
            list@ == self@,
    {
        &self.properties
    }

    /// Drops all properties.
    pub fn clear(&mut self)
        ensures
            final(self)@ == Seq::<WorldInfoProperty>::empty(),
            final(self).name == old(self).name,
            final(self).description == old(self).description,
    {
        self.properties.clear();
    }

    /// Adds a property at the end.
    pub fn push(&mut self, property: WorldInfoProperty)
        ensures
            final(self)@ == old(self)@.push(property),
            final(self).name == old(self).name,
            final(self).description == old(self).description,
    {
        self.properties.push(property);
    }
}

/// The description of a pitch without a type.
pub open spec fn unassigned_pitch_text() -> Seq<char> {
    "A pitch, providing residency to visitors. This pitch is unassigned and cannot house visitors currently."@
}

/// The properties of a pitch on an area with so many tiles: for a pitch
/// with a type, the type, its comfort and the tiles it needs; for every
/// pitch, how many share the plot and how many tiles it has.
pub open spec fn pitch_properties(pitch: Pitch, tiles: nat) -> Seq<WorldInfoProperty> {
    (match pitch.kind {
        Some(kind) => seq![
            WorldInfoProperty::PitchType(kind),
            WorldInfoProperty::Comfort(kind_comfort(kind)),
            WorldInfoProperty::MinArea(kind.needed_tiles() as usize),
        ],
        None => Seq::empty(),
    }) + seq![
        WorldInfoProperty::Multiplicity(pitch.multiplicity.value()),
        WorldInfoProperty::Area(tiles as usize),
    ]
}

/// The comfort of a type of pitch as a metric.
pub open spec fn kind_comfort(kind: PitchType) -> Comfort {
    choose|comfort: Comfort| comfort.value() == kind.comfort_level()
}

impl Pitch {
    /// Writes what is known of the pitch and its area into `properties`:
    /// the name, the description of the type or of a pitch without one, and
    /// the properties.
    pub fn apply_properties(&self, properties: &mut WorldInfoProperties, area: &Area)
        ensures
            final(properties).name@ == "Pitch"@,
            final(properties).description@ == (match self.kind {
                Some(kind) => kind.body(),
                None => unassigned_pitch_text(),
            }),
            final(properties)@.len() == pitch_properties(*self, area@.len())
                .len(),
            forall|i: int|
                0 <= i < final(properties)@.len() ==> same_property(
                    #[trigger] final(properties)@[i],
                    pitch_properties(*self, area@.len())[i],
                ),
    {
        properties.clear();
        properties.name = String::from_str("Pitch");
        properties.description = String::from_str(
            match self.kind {
                Some(kind) => kind.description(),
                None =>
                    "A pitch, providing residency to visitors. This pitch is unassigned and cannot house visitors currently.",
            },
        );
        if let Some(kind) = self.kind {
            properties.push(WorldInfoProperty::PitchType(kind));
            properties.push(WorldInfoProperty::Comfort(kind.comfort()));
            properties.push(WorldInfoProperty::MinArea(kind.required_area()));
        }
        properties.push(WorldInfoProperty::Multiplicity(self.multiplicity.get()));
        properties.push(WorldInfoProperty::Area(area.size()));
    }
}

/// True when two properties say the same: they are of the same sort and
/// hold the same number or type.
pub open spec fn same_property(a: WorldInfoProperty, b: WorldInfoProperty) -> bool {
    match (a, b) {
        (WorldInfoProperty::Area(x), WorldInfoProperty::Area(y)) => x == y,
        (WorldInfoProperty::MinArea(x), WorldInfoProperty::MinArea(y)) => x == y,
        (WorldInfoProperty::Comfort(x), WorldInfoProperty::Comfort(y)) => x.value() == y.value(),
        (WorldInfoProperty::PitchType(x), WorldInfoProperty::PitchType(y)) => x == y,
        (WorldInfoProperty::Multiplicity(x), WorldInfoProperty::Multiplicity(y)) => x == y,
        _ => false,
    }
}

impl BuildError {
    /// What the error says to the player.
    pub open spec fn message_text(self) -> Seq<char> {
        match self {
            BuildError::NoAccommodationHere => "There is no pitch to build on here."@,
            BuildError::NoSpace => "Building doesn’t have enough space to be built here."@,
            BuildError::PitchTooSmall { required, actual } =>
                "The pitch area is too small for this pitch type; "@ + decimal_text(
                    required as nat,
                ) + " tiles are required but there are only "@ + decimal_text(actual as nat)
                    + " tiles."@,
        }
    }

    /// The heading under which build errors are shown.
    pub fn name(&self) -> (name: &'static str)
        ensures
            name@ == "Build error"@,
    {
        "Build error"
    }

    /// What the error says to the player.
    pub fn message(&self) -> (text: String)
        ensures
            text@ == self.message_text(),
    {
        match self {
            BuildError::NoAccommodationHere => String::from_str(
                "There is no pitch to build on here.",
            ),
            BuildError::NoSpace => String::from_str(
                "Building doesn’t have enough space to be built here.",
            ),
            BuildError::PitchTooSmall { required, actual } => {
                let mut text = String::from_str("The pitch area is too small for this pitch type; ");
                let needed = decimal(*required as u64);
                text.append(needed.as_str());
                text.append(" tiles are required but there are only ");
                let there = decimal(*actual as u64);
                text.append(there.as_str());
                text.append(" tiles.");
                text
            },
        }
    }
}

} // verus!
