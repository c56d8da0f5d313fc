use bevy::ecs::entity::Entity;
use campground::area::Area;
use campground::buildable::{all_buildables, BuildMenu, BuildMode, Buildable, BuildableType};
use campground::geometry::GridPosition;
use campground::grid_box::{BoundingBox, GridBox};
use campground::library::{
    font_for, image_for_border_kind, image_for_ground, image_for_pitch, logo_for_build_menu,
    logo_for_buildable, preview_image_for_buildable, FontStyle, FontWeight,
};
use campground::metric::Metric;
use campground::nav_category::NavCategory;
use campground::pitch::{BuildError, Pitch, PitchType};
use campground::sides::Sides;
use campground::text::decimal;
use campground::tile::{BorderKind, GroundChange, GroundKind, GroundMap};
use campground::tooltip::{Tooltip, Tooltipable};
use campground::world_info::{WorldInfoProperties, WorldInfoProperty};

fn at(x: i32, y: i32) -> GridPosition {
    GridPosition::new(x, y, 0)
}

#[test]
fn font_paths() {
    assert_eq!(font_for(FontWeight::Regular, FontStyle::Regular), "CrimsonPro-.ttf");
    assert_eq!(font_for(FontWeight::Bold, FontStyle::Regular), "CrimsonPro-Bold.ttf");
    assert_eq!(font_for(FontWeight::Regular, FontStyle::Italic), "CrimsonPro-Italic.ttf");
    assert_eq!(font_for(FontWeight::Bold, FontStyle::Italic), "CrimsonPro-BoldItalic.ttf");
}

#[test]
fn image_tables() {
    assert_eq!(image_for_ground(GroundKind::Grass), "grass.qoi");
    assert_eq!(image_for_ground(GroundKind::Pathway), "gravel.qoi");
    assert_eq!(image_for_ground(GroundKind::PoolPath), "pool.qoi");
    assert_eq!(image_for_ground(GroundKind::Pitch), "pitch-tile.qoi");
    assert_eq!(image_for_pitch(PitchType::TentPitch), "tent-post.qoi");
    assert_eq!(image_for_pitch(PitchType::PermanentTent), "permanent-tent.qoi");
    assert_eq!(image_for_pitch(PitchType::CaravanPitch), "caravan-post.qoi");
    assert_eq!(image_for_pitch(PitchType::MobileHome), "mobile-home.qoi");
    assert_eq!(image_for_pitch(PitchType::Cottage), "cottage.qoi");
    assert_eq!(image_for_border_kind(BorderKind::Pitch), "pitch-border.qoi");
    assert_eq!(logo_for_build_menu(BuildMenu::Basics), "concrete.qoi");
    assert_eq!(logo_for_build_menu(BuildMenu::Pitch), "pitch-logo.qoi");
    assert_eq!(logo_for_build_menu(BuildMenu::Pool), "pool.qoi");
    assert_eq!(logo_for_buildable(Buildable::Ground(GroundKind::Pathway)), "gravel.qoi");
    assert_eq!(logo_for_buildable(Buildable::PitchType(PitchType::Cottage)), "cottage.qoi");
    assert_eq!(logo_for_buildable(Buildable::Pitch), "pitch-area-logo.qoi");
    assert_eq!(logo_for_buildable(Buildable::PoolArea), "pool.qoi");
    assert_eq!(preview_image_for_buildable(Buildable::Pitch), "pitch-tile.qoi");
    assert_eq!(preview_image_for_buildable(Buildable::PoolArea), "pool.qoi");
    assert_eq!(preview_image_for_buildable(Buildable::Ground(GroundKind::Grass)), "grass.qoi");
    assert_eq!(
        preview_image_for_buildable(Buildable::PitchType(PitchType::MobileHome)),
        "mobile-home.qoi"
    );
}

#[test]
fn ground_tables() {
    assert_eq!(GroundKind::default(), GroundKind::Grass);
    assert_eq!(GroundKind::Pitch.border_kind(), Some(BorderKind::Pitch));
    assert_eq!(GroundKind::Grass.border_kind(), None);
    assert_eq!(GroundKind::Pathway.border_kind(), None);
    assert_eq!(GroundKind::PoolPath.border_kind(), None);
    assert_eq!(GroundKind::Grass.navigability(), NavCategory::People);
    assert_eq!(GroundKind::PoolPath.navigability(), NavCategory::People);
    assert_eq!(GroundKind::Pathway.navigability(), NavCategory::Vehicles);
    assert_eq!(GroundKind::Pitch.navigability(), NavCategory::Nobody);
    assert_eq!(GroundKind::Grass.traversal_speed(), 1);
    assert_eq!(GroundKind::Pitch.traversal_speed(), 1);
    assert_eq!(GroundKind::PoolPath.traversal_speed(), 1);
    assert_eq!(GroundKind::Pathway.traversal_speed(), 2);
}

#[test]
fn ground_map_finds_tiles_by_position() {
    let mut ground = GroundMap::new();
    assert_eq!(ground.get(&at(1, 1)), None);
    assert_eq!(ground.kind_of(&at(1, 1)), None);
    assert_eq!(ground.set(at(1, 1), GroundKind::Pathway), GroundChange::Spawn);
    assert_eq!(ground.kind_of(&at(1, 1)), None);
    ground.update_with_existing_tile(Entity::from_raw(5), at(1, 1), GroundKind::Pathway);
    assert_eq!(ground.get(&at(1, 1)), Some((Entity::from_raw(5), GroundKind::Pathway)));
    assert_eq!(ground.kind_of(&at(1, 1)), Some(GroundKind::Pathway));
    assert_eq!(ground.set(at(1, 1), GroundKind::Pitch), GroundChange::Update(Entity::from_raw(5)));
    assert_eq!(ground.get(&at(1, 1)), Some((Entity::from_raw(5), GroundKind::Pitch)));
    ground.update_with_existing_tile(Entity::from_raw(6), at(1, 1), GroundKind::Grass);
    assert_eq!(ground.get(&at(1, 1)), Some((Entity::from_raw(6), GroundKind::Grass)));
    assert_eq!(ground.get(&GridPosition::new(1, 1, 1)), None);
}

#[test]
fn fill_rect_answers_for_every_cell() {
    let mut ground = GroundMap::new();
    ground.update_with_existing_tile(Entity::from_raw(1), GridPosition::new(0, 1, 3), GroundKind::Grass);
    ground.update_with_existing_tile(Entity::from_raw(2), GridPosition::new(1, 0, 0), GroundKind::Grass);
    let changes = ground.fill_rect(
        GridPosition::new(1, 1, 3),
        GridPosition::new(0, 0, 9),
        GroundKind::PoolPath,
    );
    assert_eq!(
        changes,
        vec![
            (GridPosition::new(0, 0, 3), GroundChange::Spawn),
            (GridPosition::new(0, 1, 3), GroundChange::Update(Entity::from_raw(1))),
            (GridPosition::new(1, 0, 3), GroundChange::Spawn),
            (GridPosition::new(1, 1, 3), GroundChange::Spawn),
        ]
    );
    assert_eq!(ground.kind_of(&GridPosition::new(0, 1, 3)), Some(GroundKind::PoolPath));
    assert_eq!(ground.kind_of(&GridPosition::new(1, 0, 0)), Some(GroundKind::Grass));
    assert_eq!(ground.kind_of(&GridPosition::new(0, 0, 3)), None);
}

#[test]
fn sides_are_a_set_of_four() {
    assert_eq!(Sides::top(), Sides(0b0001));
    assert_eq!(Sides::right(), Sides(0b0010));
    assert_eq!(Sides::bottom(), Sides(0b0100));
    assert_eq!(Sides::left(), Sides(0b1000));
    assert_eq!(Sides::all(), Sides(0b1111));
    assert!(Sides::all().has_side(Sides::left()));
    assert!(!Sides::top().has_side(Sides::left()));
    assert!(Sides(0b0101).has_side(Sides(0b0110)));
    assert_eq!(Sides::all() & Sides::top(), Sides::top());
    assert_eq!(Sides::all() ^ Sides::top(), Sides(0b1110));
    let mut sides = Sides::all();
    sides ^= Sides::left();
    sides ^= Sides::right();
    assert_eq!(sides, Sides(0b0101));
    assert_eq!(sides.iter(), vec![Sides::bottom(), Sides::top()]);
    assert_eq!(
        Sides::all().iter(),
        vec![Sides::bottom(), Sides::left(), Sides::top(), Sides::right()]
    );
    assert!(Sides(0).iter().is_empty());
}

#[test]
fn sprite_index_of_each_side() {
    assert_eq!(Sides::top().to_sprite_index(), 0);
    assert_eq!(Sides::right().to_sprite_index(), 1);
    assert_eq!(Sides::left().to_sprite_index(), 2);
    assert_eq!(Sides::bottom().to_sprite_index(), 3);
}

#[test]
fn buildables() {
    assert_eq!(BuildableType::from(Buildable::Ground(GroundKind::Grass)), BuildableType::Ground);
    assert_eq!(BuildableType::from(Buildable::PoolArea), BuildableType::PoolArea);
    assert_eq!(BuildableType::from(Buildable::Pitch), BuildableType::Pitch);
    assert_eq!(
        BuildableType::from(Buildable::PitchType(PitchType::Cottage)),
        BuildableType::PitchType
    );
    assert_eq!(Buildable::Ground(GroundKind::Grass).menu(), BuildMenu::Basics);
    assert_eq!(Buildable::PoolArea.menu(), BuildMenu::Pool);
    assert_eq!(Buildable::Pitch.menu(), BuildMenu::Pitch);
    assert_eq!(Buildable::PitchType(PitchType::TentPitch).menu(), BuildMenu::Pitch);
    assert_eq!(Buildable::Ground(GroundKind::Grass).build_mode(), BuildMode::Line);
    assert_eq!(Buildable::PoolArea.build_mode(), BuildMode::Rect);
    assert_eq!(Buildable::Pitch.build_mode(), BuildMode::Rect);
    assert_eq!(Buildable::PitchType(PitchType::TentPitch).build_mode(), BuildMode::Single);
    assert_eq!(Buildable::Pitch.size(), BoundingBox { x: 1, y: 1, z: 0 });
    assert_eq!(Buildable::Ground(GroundKind::Pathway).size(), BoundingBox { x: 1, y: 1, z: 0 });
    assert_eq!(Buildable::PitchType(PitchType::Cottage).size(), BoundingBox { x: 2, y: 3, z: 3 });
    let all = all_buildables();
    assert_eq!(all.len(), 9);
    assert_eq!(all[0], Buildable::Ground(GroundKind::Pathway));
    assert_eq!(all[3], Buildable::Pitch);
    assert_eq!(all[8], Buildable::PitchType(PitchType::Cottage));
}

#[test]
fn numbers_in_decimal() {
    assert_eq!(decimal(0), "0");
    assert_eq!(decimal(7), "7");
    assert_eq!(decimal(10), "10");
    assert_eq!(decimal(1905), "1905");
    assert_eq!(decimal(u64::MAX), "18446744073709551615");
}

#[test]
fn build_errors_speak() {
    assert_eq!(BuildError::NoSpace.name(), "Build error");
    assert_eq!(BuildError::NoAccommodationHere.message(), "There is no pitch to build on here.");
    assert_eq!(
        BuildError::NoSpace.message(),
        "Building doesn’t have enough space to be built here."
    );
    assert_eq!(
        BuildError::PitchTooSmall { required: 16, actual: 9 }.message(),
        "The pitch area is too small for this pitch type; 16 tiles are required but there are only 9 tiles."
    );
}

#[test]
fn tooltips_name_and_describe() {
    assert_eq!(GroundKind::PoolPath.name(), "Pool Path");
    assert_eq!(PitchType::MobileHome.name(), "Mobile Home");
    assert_eq!(BuildMenu::Basics.name(), "The Basics");
    assert_eq!(BuildMenu::Pool.description(), "Everything for swimming pools.");
    assert_eq!(Buildable::Pitch.name(), "Pitch Site");
    assert_eq!(Buildable::PoolArea.name(), "Pool Area");
    assert_eq!(Buildable::Ground(GroundKind::Grass).name(), "Grass");
    assert_eq!(Buildable::PitchType(PitchType::Cottage).name(), "Cottage");
    assert_eq!(
        Buildable::Ground(GroundKind::Grass).description(),
        GroundKind::Grass.description()
    );
    assert_eq!(
        GroundKind::Grass.description(),
        "Grass is the default ground. Everyone can walk here, but not very fast."
    );
    assert!(PitchType::Cottage.description().starts_with("A basic cottage for up to six visitors."));
    let tooltip = Tooltip::from(&BuildMenu::Pitch);
    assert_eq!(tooltip.title, "Pitches");
    assert_eq!(
        tooltip.body,
        "Pitches housing visitors, such as tent pitches, caravans or mobile homes."
    );
}

#[test]
fn properties_are_named_and_written() {
    assert_eq!(WorldInfoProperty::Area(12).property_name(), "Area");
    assert_eq!(WorldInfoProperty::MinArea(12).property_name(), "Minimum area");
    assert_eq!(WorldInfoProperty::Comfort(Metric::new(3).unwrap()).property_name(), "Comfort");
    assert_eq!(WorldInfoProperty::PitchType(PitchType::Cottage).property_name(), "Type");
    assert_eq!(WorldInfoProperty::Multiplicity(2).property_name(), "Multiplicity");
    assert_eq!(WorldInfoProperty::Area(12).property_value(), "12i²");
    assert_eq!(WorldInfoProperty::MinArea(25).property_value(), "25i²");
    assert_eq!(WorldInfoProperty::Comfort(Metric::new(3).unwrap()).property_value(), "3");
    assert_eq!(WorldInfoProperty::PitchType(PitchType::TentPitch).property_value(), "Tent Pitch");
    assert_eq!(WorldInfoProperty::Multiplicity(2).property_value(), "2");
}

fn written(properties: &WorldInfoProperties) -> Vec<(String, String)> {
    properties.properties().iter().map(|p| (p.property_name(), p.property_value())).collect()
}

fn pair(name: &str, value: &str) -> (String, String) {
    (name.to_string(), value.to_string())
}

#[test]
fn pitch_tells_what_it_is() {
    let area = Area::from_rect(at(0, 0), at(3, 2));
    let mut properties = WorldInfoProperties::basic("old".to_string(), "older".to_string());
    properties.push(WorldInfoProperty::Area(99));
    assert_eq!(properties.name, "old");
    Pitch::default().apply_properties(&mut properties, &area);
    assert_eq!(properties.name, "Pitch");
    assert_eq!(
        properties.description,
        "A pitch, providing residency to visitors. This pitch is unassigned and cannot house visitors currently."
    );
    assert_eq!(written(&properties), vec![pair("Multiplicity", "1"), pair("Area", "12i²")]);
    let cottage = Pitch { kind: Some(PitchType::Cottage), multiplicity: Metric::new(2).unwrap() };
    cottage.apply_properties(&mut properties, &area);
    assert_eq!(properties.description, PitchType::Cottage.description());
    assert_eq!(
        written(&properties),
        vec![
            pair("Type", "Cottage"),
            pair("Comfort", "6"),
            pair("Minimum area", "12i²"),
            pair("Multiplicity", "2"),
            pair("Area", "12i²"),
        ]
    );
    properties.clear();
    assert!(properties.properties().is_empty());
    assert_eq!(properties.name, "Pitch");
}

#[test]
fn positions_as_text() {
    assert_eq!(GridPosition::new(1, -2, 30).to_text(), "1,-2,30");
    assert_eq!(GridPosition::new(0, 0, 0).to_text(), "0,0,0");
    assert_eq!(
        GridPosition::new(i32::MIN, i32::MAX, -1).to_text(),
        "-2147483648,2147483647,-1"
    );
    assert_eq!(campground::text::signed_decimal(i64::MIN), "-9223372036854775808");
}

#[test]
fn preview_of_a_single_object_stays_where_the_click_began() {
    let mut preview = campground::preview::PreviewParent::new(Buildable::PitchType(PitchType::Cottage));
    preview.start_position = GridPosition::new(5, 5, 0);
    preview.current_position = GridPosition::new(9, 9, 0);
    assert_eq!(preview.positions(), vec![GridPosition::new(4, 4, 0)]);
    let tent = campground::preview::PreviewParent {
        previewed: Buildable::PitchType(PitchType::TentPitch),
        start_position: GridPosition::new(5, 5, 2),
        current_position: GridPosition::new(0, 0, 0),
    };
    assert_eq!(tent.positions(), vec![GridPosition::new(5, 5, 2)]);
}

#[test]
fn preview_of_ground_is_a_line_and_of_an_area_a_rectangle() {
    let line = campground::preview::PreviewParent {
        previewed: Buildable::Ground(GroundKind::Pathway),
        start_position: GridPosition::new(0, 0, 0),
        current_position: GridPosition::new(2, 2, 0),
    };
    assert_eq!(
        line.positions(),
        vec![GridPosition::new(0, 0, 0), GridPosition::new(1, 1, 0), GridPosition::new(2, 2, 0)]
    );
    let rect = campground::preview::PreviewParent {
        previewed: Buildable::PoolArea,
        start_position: GridPosition::new(1, 1, 4),
        current_position: GridPosition::new(0, 0, 9),
    };
    assert_eq!(
        rect.positions(),
        vec![
            GridPosition::new(0, 0, 4),
            GridPosition::new(0, 1, 4),
            GridPosition::new(1, 0, 4),
            GridPosition::new(1, 1, 4),
        ]
    );
}

#[test]
fn pointer_fixes_the_start_and_asks_for_the_build() {
    let mut preview = campground::preview::PreviewParent::new(Buildable::Pitch);
    assert_eq!(preview.start_position, GridPosition::new(0, 0, 0));
    preview.current_position = GridPosition::new(3, 3, 0);
    assert_eq!(preview.interact(false, false, false), None);
    assert_eq!(preview.start_position, GridPosition::new(3, 3, 0));
    preview.current_position = GridPosition::new(6, 5, 0);
    assert_eq!(preview.interact(false, false, true), None);
    assert_eq!(preview.start_position, GridPosition::new(3, 3, 0));
    let request = preview.interact(false, true, false).unwrap();
    assert_eq!(request.sort, BuildableType::Pitch);
    assert_eq!(request.start_position, GridPosition::new(3, 3, 0));
    assert_eq!(request.end_position, GridPosition::new(6, 5, 0));
    assert_eq!(request.buildable, Buildable::Pitch);
    assert_eq!(preview.start_position, GridPosition::new(6, 5, 0));
    preview.current_position = GridPosition::new(1, 1, 0);
    assert_eq!(preview.interact(true, true, true), None);
    assert_eq!(preview.start_position, GridPosition::new(1, 1, 0));
}

#[test]
fn boxes_around_a_center_at_the_rim() {
    assert!(GridBox::can_center(GridPosition::new(0, 0, 0), BoundingBox { x: 2, y: 3, z: 1 }));
    assert!(!GridBox::can_center(GridPosition::new(i32::MIN, 0, 0), BoundingBox { x: 2, y: 3, z: 1 }));
    assert!(GridBox::can_center(GridPosition::new(i32::MIN, 0, 0), BoundingBox { x: 1, y: 1, z: 1 }));
    assert!(!GridBox::can_center(GridPosition::new(i32::MAX, 0, 0), BoundingBox { x: 4, y: 1, z: 1 }));
    assert!(!GridBox::can_center(GridPosition::new(i32::MIN, 0, 0), BoundingBox { x: 0, y: 1, z: 1 }));
}
