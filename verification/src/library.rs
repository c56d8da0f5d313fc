//! Look-up tables that name the assets for the things of the game.

use crate::buildable::{BuildMenu, Buildable};
use crate::pitch::PitchType;
use crate::tile::{BorderKind, GroundKind};
use vstd::prelude::*;
use vstd::string::StringExecFns;

verus! {

/// Weight of a face of the game font.
#[derive(Clone, Copy, PartialEq, Eq, Structural)]
pub enum FontWeight {
    Regular,
    Bold,
}

/// Slant of a face of the game font.
#[derive(Clone, Copy, PartialEq, Eq, Structural)]
pub enum FontStyle {
    Regular,
    Italic,
}

/// The file name of the face with the given weight and style.
pub open spec fn font_name(weight: FontWeight, style: FontStyle) -> Seq<char> {
    "CrimsonPro-"@ + (if weight == FontWeight::Bold {
        "Bold"@
    } else {
        ""@
    }) + (if style == FontStyle::Italic {
        "Italic"@
    } else {
        ""@
    }) + ".ttf"@
}

/// Builds the asset path of the font face: the family name, then `Bold` for a
/// bold face, then `Italic` for an italic one, then the extension.
pub fn font_for(weight: FontWeight, style: FontStyle) -> (path: String)
    ensures
        path@ == font_name(weight, style),
{
    let mut path = String::from_str("CrimsonPro-");
    path.append(if weight == FontWeight::Bold { "Bold" } else { "" });
    path.append(if style == FontStyle::Italic { "Italic" } else { "" });
    path.append(".ttf");
    path
}

/// The image of ground of a kind.
pub open spec fn ground_image(kind: GroundKind) -> Seq<char> {
    match kind {
        GroundKind::Grass => "grass.qoi"@,
        GroundKind::Pathway => "gravel.qoi"@,
        GroundKind::PoolPath => "pool.qoi"@,
        GroundKind::Pitch => "pitch-tile.qoi"@,
    }
}

/// The image of the building or the marker of a type of pitch.
pub open spec fn pitch_image(kind: PitchType) -> Seq<char> {
    match kind {
        PitchType::TentPitch => "tent-post.qoi"@,
        PitchType::PermanentTent => "permanent-tent.qoi"@,
        PitchType::CaravanPitch => "caravan-post.qoi"@,
        PitchType::MobileHome => "mobile-home.qoi"@,
        PitchType::Cottage => "cottage.qoi"@,
    }
}

pub fn image_for_ground(kind: GroundKind) -> (image: &'static str)
    ensures
        image@ == ground_image(kind),
{
    match kind {
        GroundKind::Grass => "grass.qoi",
        GroundKind::Pathway => "gravel.qoi",
        GroundKind::PoolPath => "pool.qoi",
        GroundKind::Pitch => "pitch-tile.qoi",
    }
}

pub fn logo_for_build_menu(menu: BuildMenu) -> (image: &'static str)
    ensures
        image@ == (match menu {
            BuildMenu::Basics => "concrete.qoi"@,
            BuildMenu::Pitch => "pitch-logo.qoi"@,
            BuildMenu::Pool => "pool.qoi"@,
        }),
{
    match menu {
        BuildMenu::Basics => "concrete.qoi",
        BuildMenu::Pitch => "pitch-logo.qoi",
        BuildMenu::Pool => "pool.qoi",
    }
}

pub fn logo_for_buildable(buildable: Buildable) -> (image: &'static str)
    ensures
        image@ == (match buildable {
            Buildable::Ground(kind) => ground_image(kind),
            Buildable::PitchType(kind) => pitch_image(kind),
            Buildable::Pitch => "pitch-area-logo.qoi"@,
            Buildable::PoolArea => "pool.qoi"@,
        }),
{
    match buildable {
        Buildable::Ground(kind) => image_for_ground(kind),
        Buildable::PitchType(kind) => image_for_pitch(kind),
        Buildable::Pitch => "pitch-area-logo.qoi",
        Buildable::PoolArea => "pool.qoi",
    }
}

pub fn preview_image_for_buildable(buildable: Buildable) -> (image: &'static str)
    ensures
        image@ == (match buildable {
            Buildable::Ground(kind) => ground_image(kind),
            Buildable::PitchType(kind) => pitch_image(kind),
            Buildable::Pitch => "pitch-tile.qoi"@,
            Buildable::PoolArea => "pool.qoi"@,
        }),
{
    match buildable {
        Buildable::Ground(kind) => image_for_ground(kind),
        Buildable::PitchType(kind) => image_for_pitch(kind),
        Buildable::Pitch => "pitch-tile.qoi",
        Buildable::PoolArea => "pool.qoi",
    }
}

pub fn image_for_pitch(kind: PitchType) -> (image: &'static str)
    ensures
        image@ == pitch_image(kind),
{
    match kind {
        PitchType::TentPitch => "tent-post.qoi",
        PitchType::PermanentTent => "permanent-tent.qoi",
        PitchType::CaravanPitch => "caravan-post.qoi",
        PitchType::MobileHome => "mobile-home.qoi",
        PitchType::Cottage => "cottage.qoi",
    }
}

pub fn image_for_border_kind(kind: BorderKind) -> (image: &'static str)
    ensures
        image@ == "pitch-border.qoi"@,
{
    match kind {
        BorderKind::Pitch => "pitch-border.qoi",
    }
}

} // verus!
