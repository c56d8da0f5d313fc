//! A hashed set of grid positions.

use crate::geometry::GridPosition;
use vstd::prelude::*;

verus! {

/// A set of grid positions, kept in the engine's hash map.
///
/// The map's own type takes an allocator whose trait cannot be named from
/// outside its crate, so the set keeps the map to itself and offers what the
/// model needs of it.
#[verifier::external_body]
pub struct TileSet {
    tiles: bevy::utils::HashMap<GridPosition, ()>,
}

/// The positions that a tile set holds.
pub uninterp spec fn held_tiles(set: TileSet) -> Set<GridPosition>;

impl View for TileSet {
    type V = Set<GridPosition>;

    open spec fn view(&self) -> Set<GridPosition> {
        held_tiles(*self)
    }
}

impl TileSet {
    /// Makes an empty `bevy::utils::HashMap` with `Default::default`: a map
    /// without entries.
    #[verifier::external_body]
    pub(crate) fn new() -> (set: TileSet)
        ensures
            held_tiles(set) == Set::<GridPosition>::empty(),
    {
        TileSet { tiles: bevy::utils::HashMap::default() }
    }

    /// Calls `hashbrown::HashMap::insert` with the unit value. Afterwards the
    /// map holds the key beside what it held; the result is `Some` exactly
    /// when the key was there before.
    #[verifier::external_body]
    pub(crate) fn insert(&mut self, tile: GridPosition) -> (previous: Option<()>)
        ensures
            held_tiles(*final(self)) == held_tiles(*old(self)).insert(tile),
            previous.is_some() == held_tiles(*old(self)).contains(tile),
    {
        self.tiles.insert(tile, ())
    }

    /// Calls `hashbrown::HashMap::remove`. Afterwards the map holds what it
    /// held but for the key; the result is `Some` exactly when the key was
    /// there before.
    #[verifier::external_body]
    pub(crate) fn remove(&mut self, tile: &GridPosition) -> (previous: Option<()>)
        ensures
            held_tiles(*final(self)) == held_tiles(*old(self)).remove(*tile),
            previous.is_some() == held_tiles(*old(self)).contains(*tile),
    {
        self.tiles.remove(tile)
    }

    /// Calls `hashbrown::HashMap::contains_key`: whether the map holds the
    /// key.
    #[verifier::external_body]
    pub(crate) fn contains(&self, tile: &GridPosition) -> (held: bool)
        ensures
            held == held_tiles(*self).contains(*tile),
    {
        self.tiles.contains_key(tile)
    }

    /// Calls `hashbrown::HashMap::len`: the number of entries.
    #[verifier::external_body]
    pub(crate) fn len(&self) -> (count: usize)
        ensures
            count == held_tiles(*self).len(),
    {
        self.tiles.len()
    }

    /// Takes the first key that `hashbrown::HashMap::keys` visits. The order
    /// of the visit is arbitrary, so this is some key of the map, and nothing
    /// only when the map is empty.
    #[verifier::external_body]
    pub(crate) fn any(&self) -> (tile: Option<GridPosition>)
        ensures
            match tile {
                Some(t) => held_tiles(*self).contains(t),
                None => held_tiles(*self) == Set::<GridPosition>::empty(),
            },
    {
        self.tiles.keys().next().copied()
    }

    /// Collects the keys that `hashbrown::HashMap::keys` visits: every key
    /// of the map once, in arbitrary order.
    #[verifier::external_body]
    pub(crate) fn to_vec(&self) -> (tiles: Vec<GridPosition>)
        ensures
            tiles@.no_duplicates(),
            tiles@.to_set() == held_tiles(*self),
    {
        self.tiles.keys().copied().collect()
    }

    /// Calls `Clone::clone` of `hashbrown::HashMap`: a map with the same
    /// keys.
    #[verifier::external_body]
    pub(crate) fn duplicate(&self) -> (copy: TileSet)
        ensures
            held_tiles(copy) == held_tiles(*self),
    {
        TileSet { tiles: self.tiles.clone() }
    }
}

} // verus!
