use bevy::ecs::entity::Entity;
use campground::area::Area;
use campground::geometry::GridPosition;
use campground::grid_box::{BoundingBox, GridBox};
use campground::metric::Metric;
use campground::pitch::{
    find_owner, perform_pitch_type_build, update_built_pitches, BuildError, BuiltPitch, Pitch,
    PitchType,
};
use campground::tile::{GroundKind, GroundMap};
use campground::unify::{AreaMarker, ImmutableArea};

fn at(x: i32, y: i32) -> GridPosition {
    GridPosition::new(x, y, 0)
}

fn entity(index: u32) -> Entity {
    Entity::from_raw(index)
}

fn pitch_ground(first: GridPosition, second: GridPosition) -> GroundMap {
    let mut ground = GroundMap::new();
    let mut index: u32 = 1000;
    for x in first.x..=second.x {
        for y in first.y..=second.y {
            ground.update_with_existing_tile(entity(index), at(x, y), GroundKind::Pitch);
            index += 1;
        }
    }
    ground
}

fn two_pitches(multiplicity: u64) -> Pitch {
    Pitch { kind: Some(PitchType::MobileHome), multiplicity: Metric::new(multiplicity).unwrap() }
}

#[test]
fn pitch_type_tables() {
    assert_eq!(PitchType::TentPitch.size(), BoundingBox { x: 1, y: 1, z: 1 });
    assert_eq!(PitchType::CaravanPitch.size(), BoundingBox { x: 1, y: 1, z: 1 });
    assert_eq!(PitchType::PermanentTent.size(), BoundingBox { x: 2, y: 2, z: 2 });
    assert_eq!(PitchType::MobileHome.size(), BoundingBox { x: 1, y: 2, z: 2 });
    assert_eq!(PitchType::Cottage.size(), BoundingBox { x: 2, y: 3, z: 3 });
    assert_eq!(PitchType::TentPitch.required_area(), 25);
    assert_eq!(PitchType::CaravanPitch.required_area(), 25);
    assert_eq!(PitchType::PermanentTent.required_area(), 16);
    assert_eq!(PitchType::MobileHome.required_area(), 8);
    assert_eq!(PitchType::Cottage.required_area(), 12);
    assert_eq!(PitchType::TentPitch.comfort().get(), 1);
    assert_eq!(PitchType::PermanentTent.comfort().get(), 4);
    assert_eq!(PitchType::CaravanPitch.comfort().get(), 3);
    assert_eq!(PitchType::MobileHome.comfort().get(), 5);
    assert_eq!(PitchType::Cottage.comfort().get(), 6);
    assert!(!PitchType::TentPitch.is_real_building());
    assert!(!PitchType::CaravanPitch.is_real_building());
    assert!(PitchType::PermanentTent.is_real_building());
    assert!(PitchType::MobileHome.is_real_building());
    assert!(PitchType::Cottage.is_real_building());
}

#[test]
fn required_area_counts_every_pitch_of_the_plot() {
    let unassigned = Pitch::default();
    assert!(unassigned.kind.is_none());
    assert_eq!(unassigned.multiplicity.get(), 1);
    assert_eq!(unassigned.required_area(), 0);
    assert_eq!(two_pitches(1).required_area(), 8);
    assert_eq!(two_pitches(2).required_area(), 16);
    let tents = Pitch { kind: Some(PitchType::TentPitch), multiplicity: Metric::new(2).unwrap() };
    assert_eq!(tents.required_area(), 50);
}

#[test]
fn pitch_marker_allows_pitch_ground_only() {
    let marker = Pitch::default();
    assert!(marker.is_allowed_ground_type(GroundKind::Pitch));
    assert!(!marker.is_allowed_ground_type(GroundKind::Grass));
    assert!(!marker.is_allowed_ground_type(GroundKind::PoolPath));
    assert_eq!(Pitch::GROUND_TYPE, GroundKind::Pitch);
}

#[test]
fn metric_keeps_to_its_range() {
    assert!(Metric::<1, 2>::new(0).is_err());
    assert_eq!(Metric::<1, 2>::new(1).unwrap().get(), 1);
    assert_eq!(Metric::<1, 2>::new(2).unwrap().get(), 2);
    assert!(Metric::<1, 2>::new(3).is_err());
    assert_eq!(Metric::<1, 2>::default().get(), 1);
    assert_eq!(Metric::<0, 10>::min_value().get(), 0);
    assert_eq!(Metric::<0, 10>::max_value().get(), 10);
    assert!(Metric::<0, 10>::try_from(11).is_err());
    assert_eq!(Metric::<0, 10>::try_from(7).unwrap().get(), 7);
    let small = Metric::<1, 2>::new(2).unwrap();
    let wide = Metric::<0, 10>::new(2).unwrap();
    assert!(small.same_as(&wide));
    assert!(!small.less_than(&wide));
    assert!(small.less_than(&Metric::<0, 10>::new(3).unwrap()));
}

#[test]
fn tent_pitch_on_a_five_by_five_area_is_built() {
    let area = Area::from_rect(at(0, 0), at(4, 4));
    let pitches = vec![(entity(1), &area, Pitch::default())];
    let build = perform_pitch_type_build(PitchType::TentPitch, at(2, 2), &pitches).ok().unwrap();
    assert_eq!(build.owner, 0);
    assert_eq!(build.entity, entity(1));
    assert_eq!(build.pitch.kind, Some(PitchType::TentPitch));
    assert_eq!(build.pitch.multiplicity.get(), 1);
    assert_eq!(build.pitch.required_area(), 25);
    assert_eq!(build.building, None);
    assert_eq!(build.area.0.size(), 25);
    assert_eq!(build.area.0.bounding_box(), area.bounding_box());
}

#[test]
fn permanent_tent_on_nine_tiles_is_too_small() {
    let area = Area::from_rect(at(0, 0), at(2, 2));
    let pitches = vec![(entity(1), &area, Pitch::default())];
    let outcome = perform_pitch_type_build(PitchType::PermanentTent, at(1, 1), &pitches);
    assert_eq!(outcome.err(), Some(BuildError::PitchTooSmall { required: 16, actual: 9 }));
}

#[test]
fn building_outside_every_pitch_is_refused() {
    let area = Area::from_rect(at(0, 0), at(4, 4));
    let pitches = vec![(entity(1), &area, Pitch::default())];
    let outcome = perform_pitch_type_build(PitchType::TentPitch, at(5, 5), &pitches);
    assert_eq!(outcome.err(), Some(BuildError::NoAccommodationHere));
    let none: Vec<(Entity, &Area, Pitch)> = Vec::new();
    let outcome = perform_pitch_type_build(PitchType::Cottage, at(0, 0), &none);
    assert_eq!(outcome.err(), Some(BuildError::NoAccommodationHere));
}

#[test]
fn building_that_sticks_out_has_no_space() {
    let area = Area::from_rect(at(0, 0), at(4, 4));
    let pitches = vec![(entity(1), &area, Pitch::default())];
    let outcome = perform_pitch_type_build(PitchType::Cottage, at(0, 2), &pitches);
    assert_eq!(outcome.err(), Some(BuildError::NoSpace));
    let outcome = perform_pitch_type_build(PitchType::Cottage, at(2, 4), &pitches);
    assert_eq!(outcome.err(), Some(BuildError::NoSpace));
    let small = Area::from_rect(at(0, 0), at(0, 0));
    let pitches = vec![(entity(1), &small, Pitch::default())];
    let outcome = perform_pitch_type_build(PitchType::PermanentTent, at(0, 0), &pitches);
    assert_eq!(outcome.err(), Some(BuildError::NoSpace));
}

#[test]
fn cottage_gets_its_building_box() {
    let far = Area::from_rect(at(10, 10), at(12, 12));
    let area = Area::from_rect(at(0, 0), at(3, 2));
    let pitches = vec![(entity(1), &far, Pitch::default()), (entity(2), &area, Pitch::default())];
    assert_eq!(find_owner(&pitches, at(1, 1)), Some(1));
    assert_eq!(find_owner(&pitches, at(11, 11)), Some(0));
    assert_eq!(find_owner(&pitches, at(5, 5)), None);
    let build = perform_pitch_type_build(PitchType::Cottage, at(1, 1), &pitches).ok().unwrap();
    assert_eq!(build.owner, 1);
    assert_eq!(build.entity, entity(2));
    assert_eq!(build.pitch.kind, Some(PitchType::Cottage));
    assert_eq!(build.building, Some(GridBox::from_corners(at(0, 0), at(1, 2))));
    assert_eq!(build.area.0.size(), 12);
}

#[test]
fn first_pitch_that_holds_the_tile_owns_it() {
    let first = Area::from_rect(at(0, 0), at(4, 4));
    let second = Area::from_rect(at(2, 2), at(8, 8));
    let pitches = vec![(entity(1), &first, Pitch::default()), (entity(2), &second, Pitch::default())];
    assert_eq!(find_owner(&pitches, at(3, 3)), Some(0));
    assert_eq!(find_owner(&pitches, at(6, 6)), Some(1));
}

fn built_cottage() -> BuiltPitch {
    let area = Area::from_rect(at(0, 0), at(3, 2));
    let pitches = vec![(entity(2), &area, Pitch::default())];
    let build = perform_pitch_type_build(PitchType::Cottage, at(1, 1), &pitches).ok().unwrap();
    BuiltPitch {
        entity: build.entity,
        pitch: build.pitch,
        area: build.area,
        buildings: vec![build.building.unwrap()],
    }
}

#[test]
fn pitch_stays_while_the_ground_is_untouched() {
    let ground = pitch_ground(at(0, 0), at(3, 2));
    let mut pitches = vec![built_cottage()];
    let others: Vec<(Entity, &Area)> = Vec::new();
    let reverted = update_built_pitches(&mut pitches, &others, &ground);
    assert!(reverted.is_empty());
    assert_eq!(pitches[0].pitch.kind, Some(PitchType::Cottage));
    assert_eq!(pitches[0].area.0.size(), 12);
    assert_eq!(pitches[0].pitch.required_area(), 12);
}

#[test]
fn pitch_reverts_when_its_building_loses_ground() {
    let mut ground = pitch_ground(at(0, 0), at(3, 2));
    ground.set(at(0, 0), GroundKind::Pathway);
    let mut pitches = vec![built_cottage()];
    let others: Vec<(Entity, &Area)> = Vec::new();
    let reverted = update_built_pitches(&mut pitches, &others, &ground);
    assert_eq!(reverted, vec![entity(2)]);
    assert_eq!(pitches[0].pitch.kind, None);
    assert_eq!(pitches[0].pitch.multiplicity.get(), 1);
    assert_eq!(pitches[0].pitch.required_area(), 0);
    assert_eq!(pitches[0].area.0.size(), 11);
    assert!(!pitches[0].area.0.contains(&at(0, 0)));
    assert_eq!(
        pitches[0].area.0.bounding_box(),
        GridBox::from_corners(at(0, 0), GridPosition::new(4, 3, 1))
    );
}

#[test]
fn pitch_reverts_when_it_gets_too_small() {
    let mut ground = pitch_ground(at(0, 0), at(3, 2));
    ground.set(at(3, 2), GroundKind::Grass);
    let mut pitches = vec![built_cottage()];
    let others: Vec<(Entity, &Area)> = Vec::new();
    let reverted = update_built_pitches(&mut pitches, &others, &ground);
    assert_eq!(reverted, vec![entity(2)]);
    assert_eq!(pitches[0].pitch.kind, None);
    assert_eq!(pitches[0].area.0.size(), 11);
}

#[test]
fn pitch_loses_the_tiles_that_another_area_claims() {
    let ground = pitch_ground(at(0, 0), at(5, 2));
    let wide = Area::from_rect(at(0, 0), at(5, 2));
    let mut pitches = vec![BuiltPitch {
        entity: entity(3),
        pitch: Pitch { kind: Some(PitchType::MobileHome), multiplicity: Metric::default() },
        area: ImmutableArea(wide),
        buildings: vec![GridBox::from_corners(at(0, 0), at(0, 1))],
    }];
    let taken = Area::from_rect(at(4, 0), at(5, 2));
    let others = vec![(entity(4), &taken)];
    let reverted = update_built_pitches(&mut pitches, &others, &ground);
    assert!(reverted.is_empty());
    assert_eq!(pitches[0].area.0.size(), 12);
    assert!(!pitches[0].area.0.contains(&at(4, 1)));
    assert_eq!(pitches[0].pitch.kind, Some(PitchType::MobileHome));
}

#[test]
fn pitch_reverts_when_it_falls_apart_or_vanishes() {
    let mut ground = pitch_ground(at(0, 0), at(5, 2));
    for y in 0..=2 {
        ground.set(at(2, y), GroundKind::Pathway);
    }
    let make = |tiles: Area, id: u32| BuiltPitch {
        entity: entity(id),
        pitch: Pitch { kind: Some(PitchType::MobileHome), multiplicity: Metric::default() },
        area: ImmutableArea(tiles),
        buildings: Vec::new(),
    };
    let mut pitches = vec![
        make(Area::from_rect(at(0, 0), at(5, 2)), 1),
        make(Area::from_rect(at(3, 0), at(5, 2)), 2),
        make(Area::from_rect(at(2, 0), at(2, 2)), 3),
    ];
    let others: Vec<(Entity, &Area)> = Vec::new();
    let reverted = update_built_pitches(&mut pitches, &others, &ground);
    assert_eq!(reverted, vec![entity(1), entity(3)]);
    assert_eq!(pitches[0].area.0.size(), 15);
    assert!(pitches[0].area.0.is_discontinuous());
    assert_eq!(pitches[0].pitch.kind, None);
    assert_eq!(pitches[1].pitch.kind, Some(PitchType::MobileHome));
    assert_eq!(pitches[1].area.0.size(), 9);
    assert!(pitches[2].area.0.is_empty());
    assert_eq!(pitches[2].pitch.kind, None);
}

#[test]
fn revalidate_tells_whether_the_pitch_reverted() {
    let ground = pitch_ground(at(0, 0), at(3, 2));
    let mut cottage = built_cottage();
    let nothing = Area::default();
    assert!(!cottage.revalidate(&ground, &nothing));
    assert_eq!(cottage.pitch.kind, Some(PitchType::Cottage));
    let foreign = Area::from_rect(at(1, 1), at(1, 1));
    assert!(cottage.revalidate(&ground, &foreign));
    assert_eq!(cottage.pitch.kind, None);
    assert_eq!(cottage.area.0.size(), 11);
}
