//! Ground tiles and the map that finds them by position.

use crate::geometry::GridPosition;
use crate::grid_box::cartesian_cells;
use crate::grid_box::rect_cells;
use crate::nav_category::NavCategory;
use bevy::ecs::entity::Entity;
use vstd::prelude::*;

verus! {

/// The engine's handle of an entity. The model only carries it along.
#[verifier::external_type_specification]
#[verifier::external_body]
pub struct ExEntity(Entity);

/// The kinds of ground.
#[derive(Clone, Copy, Debug, PartialEq, Eq, Structural)]
pub enum GroundKind {
    Grass,
    Pathway,
    PoolPath,
    Pitch,
}

/// The kinds of border that are drawn around areas.
#[derive(Clone, Copy, Debug, PartialEq, Eq, Hash, Structural)]
pub enum BorderKind {
    Pitch,
}

impl Default for GroundKind {
    fn default() -> (kind: GroundKind)
        ensures
            kind == GroundKind::Grass,
    {
        GroundKind::Grass
    }
}

impl GroundKind {
    /// The border drawn around ground of this kind: pitch ground has one.
    pub open spec fn border(self) -> Option<BorderKind> {
        match self {
            GroundKind::Pitch => Some(BorderKind::Pitch),
            _ => None,
        }
    }

    /// Who can cross ground of this kind.
    pub open spec fn open_to(self) -> NavCategory {
        match self {
            GroundKind::Grass | GroundKind::PoolPath => NavCategory::People,
            GroundKind::Pathway => NavCategory::Vehicles,
            GroundKind::Pitch => NavCategory::Nobody,
        }
    }

    /// How fast a person crosses ground of this kind, in tiles per second.
    pub open spec fn speed(self) -> u32 {
        match self {
            GroundKind::Pathway => 2,
            _ => 1,
        }
    }

    pub fn border_kind(&self) -> (border: Option<BorderKind>)
        ensures
            border == self.border(),
    {
        match self {
            GroundKind::Pitch => Some(BorderKind::Pitch),
            GroundKind::Grass | GroundKind::Pathway | GroundKind::PoolPath => None,
        }
    }

    pub fn navigability(&self) -> (category: NavCategory)
        ensures
            category == self.open_to(),
    {
        match self {
            GroundKind::Grass | GroundKind::PoolPath => NavCategory::People,
            GroundKind::Pathway => NavCategory::Vehicles,
            GroundKind::Pitch => NavCategory::Nobody,
        }
    }

    pub fn traversal_speed(&self) -> (speed: u32)
        ensures
            speed == self.speed(),
    {
        match self {
            GroundKind::Grass | GroundKind::Pitch => 1,
            GroundKind::Pathway => 2,
            GroundKind::PoolPath => 1,
        }
    }
}

/// The engine's hash map from positions to the tile entity there and its
/// kind of ground.
///
/// The map's own type takes an allocator whose trait cannot be named from
/// outside its crate, so the index keeps the map to itself and offers what
/// the model needs of it.
#[verifier::external_body]
pub struct TileIndex {
    tiles: bevy::utils::HashMap<GridPosition, (Entity, GroundKind)>,
}

/// The entries that a tile index holds.
pub uninterp spec fn indexed_tiles(index: TileIndex) -> Map<GridPosition, (Entity, GroundKind)>;

/// The map without entries.
pub open spec fn no_tiles() -> Map<GridPosition, (Entity, GroundKind)> {
    Map::empty()
}

impl TileIndex {
    /// Makes an empty `bevy::utils::HashMap` with `Default::default`: a map
    /// without entries.
    #[verifier::external_body]
    fn new() -> (index: TileIndex)
        ensures
            indexed_tiles(index) == no_tiles(),
    {
        TileIndex { tiles: bevy::utils::HashMap::default() }
    }

    /// Calls `hashbrown::HashMap::get` and copies what it finds: the value
    /// stored under the key, or nothing where the map lacks the key.
    #[verifier::external_body]
    fn get(&self, position: &GridPosition) -> (found: Option<(Entity, GroundKind)>)
        ensures
            found == (if indexed_tiles(*self).contains_key(*position) {
                Some(indexed_tiles(*self)[*position])
            } else {
                None
            }),
    {
        self.tiles.get(position).copied()
    }

    /// Calls `hashbrown::HashMap::insert`. Afterwards the map holds the value
    /// under the key and is otherwise unchanged; the result is the value that
    /// the key had before.
    #[verifier::external_body]
    fn insert(&mut self, position: GridPosition, tile: (Entity, GroundKind)) -> (previous: Option<
        (Entity, GroundKind),
    >)
        ensures
            indexed_tiles(*final(self)) == indexed_tiles(*old(self)).insert(position, tile),
            previous == (if indexed_tiles(*old(self)).contains_key(position) {
                Some(indexed_tiles(*old(self))[position])
            } else {
                None
            }),
    {
        self.tiles.insert(position, tile)
    }
}

/// A map of all ground tiles, for finding the tile at a position.
pub struct GroundMap {
    map: TileIndex,
}

/// What a change of the ground asks of the engine.
#[derive(Clone, Copy, Debug, PartialEq, Eq)]
pub enum GroundChange {
    /// The tile exists: its entity takes the new kind.
    Update(Entity),
    /// There is no tile yet: one has to be spawned and entered into the map.
    Spawn,
}

impl View for GroundMap {
    type V = Map<GridPosition, (Entity, GroundKind)>;

    closed spec fn view(&self) -> Map<GridPosition, (Entity, GroundKind)> {
        indexed_tiles(self.map)
    }
}

impl GroundMap {
    /// The kind of ground at a position, where there is a tile.
    pub open spec fn kind_at(self, position: GridPosition) -> Option<GroundKind> {
        if self@.contains_key(position) {
            Some(self@[position].1)
        } else {
            None
        }
    }

    /// The map after `set`: a tile that is there has the new kind, and the
    /// map is otherwise unchanged.
    pub open spec fn with_kind(self, position: GridPosition, kind: GroundKind) -> Map<
        GridPosition,
        (Entity, GroundKind),
    > {
        if self@.contains_key(position) {
            self@.insert(position, (self@[position].0, kind))
        } else {
            self@
        }
    }

    /// The map after `set` on the first `n` of the given cells, at level `z`.
    pub open spec fn with_kinds(
        self,
        cells: Seq<(i32, i32)>,
        n: int,
        z: i32,
        kind: GroundKind,
    ) -> Map<GridPosition, (Entity, GroundKind)>
        decreases n,
    {
        if n <= 0 {
            self@
        } else {
            let before = self.with_kinds(cells, n - 1, z, kind);
            let position = GridPosition { x: cells[n - 1].0, y: cells[n - 1].1, z };
            if before.contains_key(position) {
                before.insert(position, (before[position].0, kind))
            } else {
                before
            }
        }
    }

    /// A map without tiles.
    pub fn new() -> (ground: GroundMap)
        ensures
            ground@ == no_tiles(),
    {
        GroundMap { map: TileIndex::new() }
    }

    /// Gives the tile at `position` the kind `kind`. Where a tile is there,
    /// the map records the new kind and names the entity that has to follow;
    /// where none is, the map stays as it is and asks for a new tile, which
    /// `update_with_existing_tile` enters once it is spawned.
    pub fn set(&mut self, position: GridPosition, kind: GroundKind) -> (change: GroundChange)
        ensures
            final(self)@ == old(self).with_kind(position, kind),
            change == (if old(self)@.contains_key(position) {
                GroundChange::Update(old(self)@[position].0)
            } else {
                GroundChange::Spawn
            }),
    {
        match self.map.get(&position) {
            Some((entity, _)) => {
                let _ = self.map.insert(position, (entity, kind));
                GroundChange::Update(entity)
            },
            None => GroundChange::Spawn,
        }
    }

    /// Gives every tile of the rectangle between the two positions, on the
    /// level of the first, the kind `kind`. The result lists the cells of the
    /// rectangle column by column, each with what `set` answered for it.
    pub fn fill_rect(
        &mut self,
        start_position: GridPosition,
        end_position: GridPosition,
        kind: GroundKind,
    ) -> (changes: Vec<(GridPosition, GroundChange)>)
        requires
            (crate::line::distance(start_position.x as int, end_position.x as int) + 1) * (
            crate::line::distance(start_position.y as int, end_position.y as int) + 1)
                <= usize::MAX,
        ensures
            ({
                let cells = rect_cells(
                    crate::grid_box::lesser(start_position.x as int, end_position.x as int),
                    crate::grid_box::greater(start_position.x as int, end_position.x as int),
                    crate::grid_box::lesser(start_position.y as int, end_position.y as int),
                    crate::grid_box::greater(start_position.y as int, end_position.y as int),
                );
                &&& final(self)@ == old(self).with_kinds(
                    cells,
                    cells.len() as int,
                    start_position.z,
                    kind,
                )
                &&& changes@.len() == cells.len()
                &&& forall|i: int|
                    0 <= i < cells.len() ==> (#[trigger] changes@[i]).0 == (GridPosition {
                        x: cells[i].0,
                        y: cells[i].1,
                        z: start_position.z,
                    }) && changes@[i].1 == (if old(self)@.contains_key(changes@[i].0) {
                        GroundChange::Update(old(self)@[changes@[i].0].0)
                    } else {
                        GroundChange::Spawn
                    })
            }),
    {
        let smaller = start_position.component_wise_min(end_position);
        let larger = start_position.component_wise_max(end_position);
        let cells = cartesian_cells(smaller.x, larger.x, smaller.y, larger.y);
        let mut changes: Vec<(GridPosition, GroundChange)> = Vec::new();
        let mut i: usize = 0;
        while i < cells.len()
            invariant
                i <= cells.len(),
                self@ == old(self).with_kinds(cells@, i as int, start_position.z, kind),
                self@.dom() == old(self)@.dom(),
                forall|p: GridPosition|
                    self@.contains_key(p) ==> (#[trigger] self@[p]).0 == old(self)@[p].0,
                changes@.len() == i,
                forall|k: int|
                    0 <= k < i ==> (#[trigger] changes@[k]).0 == (GridPosition {
                        x: cells@[k].0,
                        y: cells@[k].1,
                        z: start_position.z,
                    }) && changes@[k].1 == (if old(self)@.contains_key(changes@[k].0) {
                        GroundChange::Update(old(self)@[changes@[k].0].0)
                    } else {
                        GroundChange::Spawn
                    }),
            decreases cells.len() - i,
        {
            let position = GridPosition { x: cells[i].0, y: cells[i].1, z: start_position.z };
            let ghost before = *self;
            let change = self.set(position, kind);
            proof {
                assert(self@.dom() =~= before@.dom());
                Self::lemma_with_kinds_step(*old(self), before, cells@, i as int, start_position.z, kind);
            }
            changes.push((position, change));
            i += 1;
        }
        changes
    }

    /// One more cell of a fill is one more `set`.
    proof fn lemma_with_kinds_step(
        start: GroundMap,
        before: GroundMap,
        cells: Seq<(i32, i32)>,
        n: int,
        z: i32,
        kind: GroundKind,
    )
        requires
            n >= 0,
            before@ == start.with_kinds(cells, n, z, kind),
        ensures
            start.with_kinds(cells, n + 1, z, kind) == before.with_kind(
                GridPosition { x: cells[n].0, y: cells[n].1, z },
                kind,
            ),
    {
    }

    /// The kind of ground at a position, where there is a tile.
    pub fn kind_of(&self, position: &GridPosition) -> (kind: Option<GroundKind>)
        ensures
            kind == self.kind_at(*position),
    {
        match self.map.get(position) {
            Some((_, kind)) => Some(kind),
            None => None,
        }
    }

    /// The tile entity at a position and its kind of ground.
    pub fn get(&self, position: &GridPosition) -> (tile: Option<(Entity, GroundKind)>)
        ensures
            tile == (if self@.contains_key(*position) {
                Some(self@[*position])
            } else {
                None
            }),
    {
        self.map.get(position)
    }

    /// Enters a tile that exists in the world into the map, in place of
    /// whatever the map had at its position.
    pub fn update_with_existing_tile(
        &mut self,
        entity: Entity,
        position: GridPosition,
        kind: GroundKind,
    )
        ensures
            final(self)@ == old(self)@.insert(position, (entity, kind)),
    {
        let _ = self.map.insert(position, (entity, kind));
    }
}

} // verus!
